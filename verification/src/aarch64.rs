//! Memory discovery for the device-tree boot path: pulls the raw regions
//! reported under `/memory/reg`, shrinks those that begin at a known-occupied
//! footprint, and feeds the result to the memory map store.

use vstd::prelude::*;
use crate::bytes::{be_u32_at, be_u64_at};
use crate::device_tree::{
    device_tree_memory_region, token_step, Fdt, Iter, Token, TokenStep, TokenView,
    TOKEN_BEGIN_NODE,
};
use crate::memory::{MemoryMap, MemoryRegion, MEMORY_REGIONS_MAX};
use crate::path::{lemma_path_next_found, path_next, PathIter, PathStep, SLASH};
use crate::BootError;

verus! {

/// The path expression that selects the `reg` property of memory nodes,
/// `/memory/reg`, as bytes.
pub open spec fn memory_reg_path() -> Seq<u8> {
    seq![SLASH, 109u8, 101u8, 109u8, 111u8, 114u8, 121u8, SLASH, 114u8, 101u8, 103u8]
}

/// Builds the `/memory/reg` path expression.
fn memory_reg_path_vec() -> (r: Vec<u8>)
    ensures
        r@ == memory_reg_path(),
{
    let mut v: Vec<u8> = Vec::new();
    v.push(SLASH);
    v.push(109);
    v.push(101);
    v.push(109);
    v.push(111);
    v.push(114);
    v.push(121);
    v.push(SLASH);
    v.push(114);
    v.push(101);
    v.push(103);
    proof {
        assert(v@ =~= memory_reg_path());
    }
    v
}

/// Shrinks a raw region that begins exactly at an occupied footprint — the
/// descriptor blob's span or the kernel image's span — by advancing its
/// start and reducing its size by the combined footprint size. Any other
/// region passes through unchanged.
///
/// This deliberately narrow, address-prefix-only policy does not subtract
/// occupied ranges from the middle or end of a raw region.
pub open spec fn adjust_region(
    addr: u64,
    size: u64,
    dtreg: MemoryRegion,
    kreg: MemoryRegion,
) -> Result<MemoryRegion, BootError> {
    if addr == dtreg.address || addr == kreg.address {
        let diff = dtreg.size + kreg.size;
        if diff <= u64::MAX && addr + diff <= u64::MAX && size >= diff {
            Ok(MemoryRegion { address: (addr + diff) as u64, size: (size - diff) as u64 })
        } else {
            Err(BootError::RegionArithmetic)
        }
    } else {
        Ok(MemoryRegion { address: addr, size })
    }
}

/// Folds the address/size pairs of one `reg` property value, from pair `i`
/// on, through [`adjust_region`] onto `acc`, failing when the configured
/// region capacity would be exceeded.
pub open spec fn value_regions(
    value: Seq<u8>,
    i: int,
    dtreg: MemoryRegion,
    kreg: MemoryRegion,
    acc: Seq<MemoryRegion>,
) -> Result<Seq<MemoryRegion>, BootError>
    decreases value.len() as int / 16 - i,
{
    if i < 0 || i >= value.len() as int / 16 {
        Ok(acc)
    } else {
        match adjust_region(be_u64_at(value, 16 * i), be_u64_at(value, 16 * i + 8), dtreg, kreg) {
            Ok(mr) => {
                if acc.len() >= MEMORY_REGIONS_MAX {
                    Err(BootError::TooManyRegions)
                } else {
                    value_regions(value, i + 1, dtreg, kreg, acc.push(mr))
                }
            },
            Err(e) => Err(e),
        }
    }
}

/// The whole detection fold: drives the path query from `(off, cs)`, and for
/// every yielded `reg` property appends its adjusted regions to `acc`, in
/// discovery order. A property value that is not a whole number of pairs is
/// fatal; a yielded begin-node token contributes nothing.
pub open spec fn dt_detect(
    blob: Seq<u8>,
    soff: int,
    path: Seq<u8>,
    off: int,
    cs: int,
    dtreg: MemoryRegion,
    kreg: MemoryRegion,
    acc: Seq<MemoryRegion>,
) -> Result<Seq<MemoryRegion>, BootError>
    decreases blob.len() + 8 - off
    via dt_detect_decreases
{
    match path_next(blob, soff, path, true, off, cs) {
        PathStep::Fail(e) => Err(e),
        PathStep::Exhausted(_n, _cs) => Ok(acc),
        PathStep::Found(y, n2, cs2) => match token_step(blob, soff, y) {
            TokenStep::Tok(TokenView::Prop(_name, value), _) => {
                if value.len() as int % 16 != 0 {
                    Err(BootError::BadRegionsValue)
                } else {
                    match value_regions(value, 0, dtreg, kreg, acc) {
                        Ok(acc2) => dt_detect(blob, soff, path, n2, cs2, dtreg, kreg, acc2),
                        Err(e) => Err(e),
                    }
                }
            },
            _ => dt_detect(blob, soff, path, n2, cs2, dtreg, kreg, acc),
        },
    }
}

#[via_fn]
proof fn dt_detect_decreases(
    blob: Seq<u8>,
    soff: int,
    path: Seq<u8>,
    off: int,
    cs: int,
    dtreg: MemoryRegion,
    kreg: MemoryRegion,
    acc: Seq<MemoryRegion>,
) {
    lemma_path_next_found(blob, soff, path, true, off, cs);
}

/// The final usable-region list for the memory map store: every region the
/// device tree reports under `/memory/reg` (address suffixes ignored),
/// decoded as big-endian address/size pairs and shrunk by the descriptor and
/// kernel footprints where one begins a region.
///
/// Output order follows discovery order in the structure block; sorting is
/// the store's responsibility. Fails on a malformed structure block, a
/// malformed `reg` value, an adjustment that would not fit, or more regions
/// than the configured maximum.
#[verifier::loop_isolation(false)]
pub fn detect_memory(fdt: &Fdt, kreg: MemoryRegion) -> (r: Result<Vec<MemoryRegion>, BootError>)
    requires
        fdt.wf(),
    ensures
        ({
            let blob = fdt.blob@;
            let dtreg = MemoryRegion { address: fdt.address, size: fdt.total_size as u64 };
            if fdt.off_dt_struct + 4 > blob.len() {
                r == Err::<Vec<MemoryRegion>, BootError>(BootError::Truncated)
            } else if be_u32_at(blob, fdt.off_dt_struct as int) != TOKEN_BEGIN_NODE {
                r == Err::<Vec<MemoryRegion>, BootError>(BootError::BadToken)
            } else {
                match dt_detect(
                    blob,
                    fdt.off_dt_strings as int,
                    memory_reg_path(),
                    fdt.off_dt_struct as int,
                    0,
                    dtreg,
                    kreg,
                    Seq::empty(),
                ) {
                    Ok(s) => r matches Ok(v) && v@ == s,
                    Err(e) => r == Err::<Vec<MemoryRegion>, BootError>(e),
                }
            }
        }),
{
    let ghost blob = fdt.blob@;
    let ghost soff = fdt.off_dt_strings as int;
    let ghost path = memory_reg_path();
    let ghost dtreg_s = MemoryRegion { address: fdt.address, size: fdt.total_size as u64 };

    let dtreg = device_tree_memory_region(fdt);
    let it = match Iter::new(fdt) {
        Ok(it) => it,
        Err(e) => {
            return Err(e);
        },
    };
    let path_vec = memory_reg_path_vec();
    let mut pi = PathIter::new(it, path_vec.as_slice(), true);
    let mut out: Vec<MemoryRegion> = Vec::new();
    loop
        invariant
            pi.wf(),
            pi.iter.blob@ == blob,
            pi.iter.soff as int == soff,
            pi.path@ == path,
            pi.ignore_addr == true,
            dt_detect(blob, soff, path, pi.iter.off as int, pi.comp as int, dtreg_s, kreg, out@)
                == dt_detect(
                blob,
                soff,
                path,
                fdt.off_dt_struct as int,
                0,
                dtreg_s,
                kreg,
                Seq::empty(),
            ),
        decreases blob.len() + 8 - pi.iter.off,
    {
        let ghost cur_off = pi.iter.off as int;
        let ghost cur_cs = pi.comp as int;
        proof {
            lemma_path_next_found(blob, soff, path, true, cur_off, cur_cs);
        }
        match pi.next() {
            Err(e) => {
                return Err(e);
            },
            Ok(None) => {
                return Ok(out);
            },
            Ok(Some(mut it2)) => {
                match it2.next() {
                    Err(_) => {
                        proof {
                            assert(false);
                        }
                    },
                    Ok(None) => {
                        proof {
                            assert(false);
                        }
                    },
                    Ok(Some(t)) => {
                        match t {
                            Token::Property { name: _, value } => {
                                let ghost out0 = out@;
                                let n = value.len();
                                if n % 16 != 0 {
                                    return Err(BootError::BadRegionsValue);
                                }
                                let count = n / 16;
                                proof {
                                    assert(16 * (count as int) == n as int) by (nonlinear_arith)
                                        requires
                                            n as int % 16 == 0,
                                            count as int == n as int / 16,
                                    ;
                                }
                                let mut i: usize = 0;
                                while i < count
                                    invariant
                                        i <= count,
                                        value_regions(value@, i as int, dtreg_s, kreg, out@)
                                            == value_regions(value@, 0, dtreg_s, kreg, out0),
                                    decreases count - i,
                                {
                                    proof {
                                        assert(16 * (i as int) + 16 <= 16 * (count as int))
                                            by (nonlinear_arith)
                                            requires
                                                i < count,
                                        ;
                                    }
                                    let base = 16 * i;
                                    let addr = crate::bytes::read_be_u64(value, base);
                                    let size = crate::bytes::read_be_u64(value, base + 8);
                                    let mr: MemoryRegion;
                                    if addr == dtreg.address || addr == kreg.address {
                                        if kreg.size > u64::MAX - dtreg.size {
                                            return Err(BootError::RegionArithmetic);
                                        }
                                        let diff = dtreg.size + kreg.size;
                                        if addr > u64::MAX - diff || size < diff {
                                            return Err(BootError::RegionArithmetic);
                                        }
                                        mr = MemoryRegion { address: addr + diff, size: size
                                            - diff };
                                    } else {
                                        mr = MemoryRegion { address: addr, size };
                                    }
                                    if out.len() >= MEMORY_REGIONS_MAX {
                                        return Err(BootError::TooManyRegions);
                                    }
                                    out.push(mr);
                                    i = i + 1;
                                }
                            },
                            _ => {},
                        }
                    },
                }
            },
        }
    }
}

/// Runs the whole device-tree boot path once: detects the usable regions and
/// freezes them in the store.
///
/// `kreg` is the running kernel image's own footprint, as
/// [`crate::memory::kernel_memory_region`] computes it.
pub fn init(fdt: &Fdt, kreg: MemoryRegion, store: &mut MemoryMap) -> (r: Result<(), BootError>)
    requires
        fdt.wf(),
        old(store).wf(),
    ensures
        final(store).wf(),
        ({
            let blob = fdt.blob@;
            let dtreg = MemoryRegion { address: fdt.address, size: fdt.total_size as u64 };
            let header_ok = fdt.off_dt_struct + 4 <= blob.len() && be_u32_at(
                blob,
                fdt.off_dt_struct as int,
            ) == TOKEN_BEGIN_NODE;
            let det = dt_detect(
                blob,
                fdt.off_dt_strings as int,
                memory_reg_path(),
                fdt.off_dt_struct as int,
                0,
                dtreg,
                kreg,
                Seq::empty(),
            );
            &&& (!header_ok || det is Err) ==> (r is Err && *final(store) == *old(store))
            &&& match det {
                Ok(s) => header_ok ==> {
                    &&& (r is Ok <==> !old(store).is_init() && s.len() <= MEMORY_REGIONS_MAX
                        && crate::memory::regions_sorted(s))
                    &&& (r is Ok ==> final(store).is_init() && final(store).regions() == s)
                    &&& (r is Err ==> *final(store) == *old(store))
                },
                Err(_) => true,
            }
        }),
{
    match detect_memory(fdt, kreg) {
        Ok(regions) => store.init(regions.as_slice()),
        Err(e) => Err(e),
    }
}

} // verus!
