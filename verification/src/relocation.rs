//! ELF kernel modules relocations (x86_64).
//!
//! A relocation patches a word of a loaded module with a value computed from a symbol, an addend,
//! the module's base address and the location of the word.
use vstd::prelude::*;

verus! {

/// Relocation type: none.
pub const R_X86_64_NONE: u8 = 0;
/// Relocation type: direct 64 bits.
pub const R_X86_64_64: u8 = 1;
/// Relocation type: PC-relative 32 bits.
pub const R_X86_64_PC32: u8 = 2;
/// Relocation type: copy symbol at runtime.
pub const R_X86_64_COPY: u8 = 5;
/// Relocation type: create GOT entry.
pub const R_X86_64_GLOB_DAT: u8 = 6;
/// Relocation type: create PLT entry.
pub const R_X86_64_JUMP_SLOT: u8 = 7;
/// Relocation type: adjust by program base.
pub const R_X86_64_RELATIVE: u8 = 8;

/// ELF section type of relocations without addends.
pub const SHT_REL: u32 = 9;
/// ELF section type of relocations with addends.
pub const SHT_RELA: u32 = 4;

/// ELF relocation error.
#[derive(Clone, Copy, Debug, PartialEq, Eq, Structural)]
pub struct RelocationError;

/// The symbol index held by a relocation's `r_info` field.
pub open spec fn sym_of_info(info: u64) -> u64 {
    info >> 32u64
}

/// The relocation type held by a relocation's `r_info` field: its low byte.
pub open spec fn type_of_info(info: u64) -> u8 {
    (info & 0xff) as u8
}

/// Trait implemented for relocation objects.
pub trait Relocation {
    /// The `r_offset` field of the relocation.
    spec fn offset_spec(&self) -> u64;

    /// The `r_info` field of the relocation.
    spec fn info_spec(&self) -> u64;

    /// The addend of the relocation.
    spec fn addend_spec(&self) -> i64;

    /// The type of the sections that hold relocations of this kind.
    spec fn section_type_spec(&self) -> u32;

    /// The required section type for the relocation type.
    fn required_section_type(&self) -> (t: u32)
        ensures
            t == self.section_type_spec(),
    ;

    /// Returns the `r_offset` field of the relocation.
    fn get_offset(&self) -> (o: u64)
        ensures
            o == self.offset_spec(),
    ;

    /// Returns the `r_info` field of the relocation.
    fn get_info(&self) -> (i: u64)
        ensures
            i == self.info_spec(),
    ;

    /// Returns the relocation's addend.
    fn get_addend(&self) -> (a: i64)
        ensures
            a == self.addend_spec(),
    ;

    /// Returns the relocation's symbol.
    fn get_sym(&self) -> (s: u64)
        ensures
            s == sym_of_info(self.info_spec()),
    {
        self.get_info() >> 32u64
    }

    /// Returns the relocation type.
    fn get_type(&self) -> (t: u8)
        ensures
            t == type_of_info(self.info_spec()),
    {
        (self.get_info() & 0xff) as u8
    }
}

/// A relocation without addend.
#[derive(Clone, Copy, Debug)]
pub struct Rel {
    /// The location of the word to patch, relative to the module's base.
    pub r_offset: u64,
    /// The symbol index and relocation type.
    pub r_info: u64,
}

/// A relocation with an addend.
#[derive(Clone, Copy, Debug)]
pub struct Rela {
    /// The location of the word to patch, relative to the module's base.
    pub r_offset: u64,
    /// The symbol index and relocation type.
    pub r_info: u64,
    /// The addend.
    pub r_addend: i64,
}

impl Relocation for Rel {
    open spec fn offset_spec(&self) -> u64 {
        self.r_offset
    }

    open spec fn info_spec(&self) -> u64 {
        self.r_info
    }

    open spec fn addend_spec(&self) -> i64 {
        0
    }

    open spec fn section_type_spec(&self) -> u32 {
        SHT_REL
    }

    fn required_section_type(&self) -> (t: u32) {
        SHT_REL
    }

    fn get_offset(&self) -> (o: u64) {
        self.r_offset
    }

    fn get_info(&self) -> (i: u64) {
        self.r_info
    }

    fn get_addend(&self) -> (a: i64) {
        0
    }
}

impl Relocation for Rela {
    open spec fn offset_spec(&self) -> u64 {
        self.r_offset
    }

    open spec fn info_spec(&self) -> u64 {
        self.r_info
    }

    open spec fn addend_spec(&self) -> i64 {
        self.r_addend
    }

    open spec fn section_type_spec(&self) -> u32 {
        SHT_RELA
    }

    fn required_section_type(&self) -> (t: u32) {
        SHT_RELA
    }

    fn get_offset(&self) -> (o: u64) {
        self.r_offset
    }

    fn get_info(&self) -> (i: u64) {
        self.r_info
    }

    fn get_addend(&self) -> (a: i64) {
        self.r_addend
    }
}

/// `a + b` wrapped to 64 bits.
pub open spec fn wrap64(x: int) -> u64 {
    (x % 0x1_0000_0000_0000_0000) as u64
}

/// What a relocation of type `t` does: `None` if it is ignored, otherwise whether it needs the
/// symbol's value, and the size of the patched word.
pub open spec fn relocation_kind(t: u8) -> Option<Option<(bool, int)>> {
    if t == R_X86_64_64 {
        Some(Some((true, 8)))
    } else if t == R_X86_64_PC32 {
        Some(Some((true, 4)))
    } else if t == R_X86_64_GLOB_DAT || t == R_X86_64_JUMP_SLOT {
        Some(Some((true, 8)))
    } else if t == R_X86_64_RELATIVE {
        Some(Some((false, 8)))
    } else if t == R_X86_64_NONE || t == R_X86_64_COPY {
        Some(None)
    } else {
        None
    }
}

/// The value written by a relocation of type `t` given the symbol's value `sym`, the addend, the
/// relocation's offset and the module's base address.
pub open spec fn relocation_value(t: u8, sym: u64, addend: i64, offset: u64, base: u64) -> u64 {
    if t == R_X86_64_64 {
        wrap64(sym + addend)
    } else if t == R_X86_64_PC32 {
        wrap64(sym + addend - offset)
    } else if t == R_X86_64_GLOB_DAT || t == R_X86_64_JUMP_SLOT {
        sym
    } else {
        wrap64(base + addend)
    }
}

/// The bytes of the little-endian encoding of the low `size` bytes of `v`.
pub open spec fn le_bytes(v: u64, size: int) -> Seq<u8> {
    Seq::new(size as nat, |i: int| ((v >> ((8 * i) as u64)) & 0xff) as u8)
}

fn wrapping_add_signed(a: u64, b: i64) -> (r: u64)
    ensures
        r == wrap64(a + b),
{
    if b >= 0 {
        let ub = b as u64;
        if ub <= u64::MAX - a {
            a + ub
        } else {
            ub - (u64::MAX - a) - 1
        }
    } else {
        let nb = (-(b as i128)) as u64;
        if nb <= a {
            a - nb
        } else {
            u64::MAX - (nb - a) + 1
        }
    }
}

fn wrapping_sub(a: u64, b: u64) -> (r: u64)
    ensures
        r == wrap64(a - b),
{
    if b <= a {
        a - b
    } else {
        u64::MAX - (b - a) + 1
    }
}

/// Performs the relocation `rel` on the image of a kernel module loaded at address `base_addr`.
///
/// Arguments:
/// - `rel` is the relocation.
/// - `base_addr` is the base address at which the ELF is loaded, `image` its bytes.
/// - `rel_link` is the `sh_link` field of the section containing the relocation.
/// - `get_sym` returns the value of a symbol from the index of the section containing the symbol
///   and the index of the symbol in the section. It is called only for relocations that need it.
///
/// If the relocation type is unsupported, if the symbol cannot be resolved, or if the patched
/// word does not lie within the image, the function returns an error and leaves the image
/// unchanged.
pub fn perform<R: Relocation, F: FnOnce(u32, u64) -> Result<u64, RelocationError>>(
    rel: &R,
    base_addr: u64,
    image: &mut [u8],
    rel_link: u32,
    get_sym: F,
) -> (r: Result<(), RelocationError>)
    requires
        get_sym.requires((rel_link, sym_of_info(rel.info_spec()))),
    ensures
        ({
            let t = type_of_info(rel.info_spec());
            let off = rel.offset_spec() as int;
            match relocation_kind(t) {
                None => r is Err && final(image)@ == old(image)@,
                Some(None) => r is Ok && final(image)@ == old(image)@,
                Some(Some((needs_sym, size))) => {
                    if r is Err {
                        final(image)@ == old(image)@
                    } else {
                        &&& off + size <= old(image)@.len()
                        &&& exists|sym: u64|
                            (needs_sym ==> get_sym.ensures(
                                (rel_link, sym_of_info(rel.info_spec())),
                                Ok::<u64, RelocationError>(sym),
                            )) && final(image)@ == old(image)@.subrange(0, off).add(
                                le_bytes(
                                    relocation_value(
                                        t,
                                        sym,
                                        rel.addend_spec(),
                                        rel.offset_spec(),
                                        base_addr,
                                    ),
                                    size,
                                ),
                            ).add(old(image)@.subrange(off + size, old(image)@.len() as int))
                    }
                },
            }
        }),
        ({
            let t = type_of_info(rel.info_spec());
            let off = rel.offset_spec() as int;
            relocation_kind(t) matches Some(Some((needs_sym, size))) && off + size
                <= old(image)@.len() && (!needs_sym || forall|v: Result<u64, RelocationError>|
                get_sym.ensures((rel_link, sym_of_info(rel.info_spec())), v) ==> v is Ok)
                ==> r is Ok
        }),
{
    let t = rel.get_type();
    let sym_index = rel.get_sym();
    let addend = rel.get_addend();
    let offset = rel.get_offset();
    let ghost mut sym_used: u64 = 0;
    let (value, size): (u64, usize) = if t == R_X86_64_64 {
        let s = get_sym(rel_link, sym_index)?;
        proof {
            sym_used = s;
        }
        (wrapping_add_signed(s, addend), 8)
    } else if t == R_X86_64_PC32 {
        let s = get_sym(rel_link, sym_index)?;
        proof {
            sym_used = s;
        }
        (wrapping_sub(wrapping_add_signed(s, addend), offset), 4)
    } else if t == R_X86_64_GLOB_DAT || t == R_X86_64_JUMP_SLOT {
        let s = get_sym(rel_link, sym_index)?;
        proof {
            sym_used = s;
        }
        (s, 8)
    } else if t == R_X86_64_RELATIVE {
        (wrapping_add_signed(base_addr, addend), 8)
    } else if t == R_X86_64_NONE || t == R_X86_64_COPY {
        return Ok(());
    } else {
        return Err(RelocationError);
    };
    assert(value == relocation_value(t, sym_used, addend, offset, base_addr));
    // The patched word must lie within the module
    let len = image.len() as u64;
    if offset > len || size as u64 > len - offset {
        return Err(RelocationError);
    }
    let start = offset as usize;
    let ghost before = image@;
    let mut i: usize = 0;
    while i < size
        invariant
            size == 4 || size == 8,
            start + size <= image@.len(),
            image@.len() <= usize::MAX,
            image@.len() == before.len(),
            i <= size,
            forall|j: int| 0 <= j < start ==> image@[j] == before[j],
            forall|j: int| start + size <= j < before.len() ==> image@[j] == before[j],
            forall|j: int| 0 <= j < i ==> image@[start + j] == le_bytes(value, size as int)[j],
        decreases size - i,
    {
        let byte = ((value >> ((8 * i) as u64)) & 0xff) as u8;
        image[start + i] = byte;
        i += 1;
    }
    assert(image@ =~= before.subrange(0, start as int).add(le_bytes(value, size as int)).add(
        before.subrange(start + size, before.len() as int),
    ));
    let ghost off = rel.offset_spec() as int;
    assert(type_of_info(rel.info_spec()) == t);
    assert(image@ == before.subrange(0, off).add(
        le_bytes(
            relocation_value(t, sym_used, rel.addend_spec(), rel.offset_spec(), base_addr),
            size as int,
        ),
    ).add(before.subrange(off + size, before.len() as int)));
    Ok(())
}

/// `wrap64(x)` is congruent to `x` modulo 2^64.
proof fn lemma_wrap64_congruent(x: int)
    ensures
        (wrap64(x) - x) % 0x1_0000_0000_0000_0000 == 0,
{
    let m: int = 0x1_0000_0000_0000_0000;
    vstd::arithmetic::div_mod::lemma_fundamental_div_mod(x, m);
    vstd::arithmetic::div_mod::lemma_mod_multiples_basic(-(x / m), m);
    assert(wrap64(x) == x % m);
    assert(wrap64(x) - x == (-(x / m)) * m) by (nonlinear_arith)
        requires
            x == m * (x / m) + (x % m),
            wrap64(x) == x % m,
    ;
}

/// The words that the relocations write, for the symbol value `sym`, the addend `addend`, the
/// offset `offset` of the patched word and the base address `base`, each modulo 2^64:
/// - an absolute relocation ([`R_X86_64_64`]) writes the symbol plus the addend;
/// - a PC-relative one ([`R_X86_64_PC32`]) writes the symbol plus the addend less the address of
///   the patched word relative to the base, that is, the absolute word less the offset;
/// - a GOT or PLT one ([`R_X86_64_GLOB_DAT`], [`R_X86_64_JUMP_SLOT`]) writes the symbol itself;
/// - a relative one ([`R_X86_64_RELATIVE`]) writes the base plus the addend: the absolute word
///   for a symbol at the base.
pub proof fn lemma_relocation_words(sym: u64, addend: i64, offset: u64, base: u64)
    ensures
        (relocation_value(R_X86_64_64, sym, addend, offset, base) - (sym + addend))
            % 0x1_0000_0000_0000_0000 == 0,
        (relocation_value(R_X86_64_PC32, sym, addend, offset, base) + offset - (sym + addend))
            % 0x1_0000_0000_0000_0000 == 0,
        (relocation_value(R_X86_64_64, sym, addend, offset, base) - relocation_value(
            R_X86_64_PC32,
            sym,
            addend,
            offset,
            base,
        ) - offset) % 0x1_0000_0000_0000_0000 == 0,
        relocation_value(R_X86_64_GLOB_DAT, sym, addend, offset, base) == sym,
        relocation_value(R_X86_64_JUMP_SLOT, sym, addend, offset, base) == sym,
        relocation_value(R_X86_64_RELATIVE, sym, addend, offset, base) == relocation_value(
            R_X86_64_64,
            base,
            addend,
            offset,
            sym,
        ),
        relocation_value(R_X86_64_64, sym, 0, offset, base) == sym,
{
    let m: int = 0x1_0000_0000_0000_0000;
    lemma_wrap64_congruent(sym + addend);
    lemma_wrap64_congruent(sym + addend - offset);
    lemma_wrap64_congruent(sym + 0);
    let v64 = relocation_value(R_X86_64_64, sym, addend, offset, base) as int;
    let vpc = relocation_value(R_X86_64_PC32, sym, addend, offset, base) as int;
    assert(vpc + offset - (sym + addend) == vpc - (sym + addend - offset));
    assert(v64 - vpc - offset == (v64 - (sym + addend)) - (vpc - (sym + addend - offset)));
    vstd::arithmetic::div_mod::lemma_sub_mod_noop(v64 - (sym + addend), vpc - (sym + addend
        - offset), m);
    assert(wrap64(sym + 0) == sym) by {
        vstd::arithmetic::div_mod::lemma_small_mod(sym as nat, m as nat);
    }
}

/// The bytes of a patched word are the little-endian encoding of the value: byte `i` is digit `i`
/// of the value in base 256, the least significant first.
pub proof fn lemma_le_bytes_digits(v: u64, size: int, i: int)
    requires
        0 <= i < size <= 8,
    ensures
        le_bytes(v, size).len() == size,
        le_bytes(v, size)[i] as int == (v as int / vstd::arithmetic::power2::pow2((8 * i) as nat) as int)
            % 256,
{
    let sh = (8 * i) as u64;
    vstd::bits::lemma_u64_shr_is_div(v, sh);
    vstd::bits::lemma_u64_low_bits_mask_is_mod(v >> sh, 8);
    vstd::bits::lemma_low_bits_mask_values();
    vstd::arithmetic::power2::lemma2_to64();
    let d = v >> sh;
    assert(d & 0xff == d % 256);
    assert(d % 256 < 256);
}

/// What each relocation type does: the absolute and GOT/PLT types patch a 64-bit word with the
/// symbol, the PC-relative type a 32-bit word with the symbol, the relative type a 64-bit word
/// without the symbol; the null and copy types are ignored, and any other type is refused.
pub proof fn lemma_relocation_kinds(t: u8)
    ensures
        t == R_X86_64_64 || t == R_X86_64_GLOB_DAT || t == R_X86_64_JUMP_SLOT ==> relocation_kind(t)
            == Some(Some((true, 8int))),
        t == R_X86_64_PC32 ==> relocation_kind(t) == Some(Some((true, 4int))),
        t == R_X86_64_RELATIVE ==> relocation_kind(t) == Some(Some((false, 8int))),
        t == R_X86_64_NONE || t == R_X86_64_COPY ==> relocation_kind(t) == Some(None::<(bool, int)>),
        relocation_kind(t) is None <==> !(t == R_X86_64_NONE || t == R_X86_64_64 || t == R_X86_64_PC32
            || t == R_X86_64_COPY || t == R_X86_64_GLOB_DAT || t == R_X86_64_JUMP_SLOT || t
            == R_X86_64_RELATIVE),
{
}

} // verus!
