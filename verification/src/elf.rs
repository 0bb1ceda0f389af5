//! The three fixed-size records of a 64-bit ELF object file.
//!
//! Every record keeps its fields as raw little-endian bytes in file order.
//! A field is read and written through an explicit decode or encode, so the
//! bytes of a record never depend on the byte order of the host.

use crate::endian::{
    le_bytes, le_value, lemma_capacities, lemma_le_bytes_of_value, lemma_le_value_bound,
    lemma_le_value_of_bytes, read_u16, read_u32, read_u64, write_u16, write_u32, write_u64,
};
use vstd::prelude::*;

verus! {

/// The four bytes every ELF file starts with.
pub const MAGIC_NUMS: [u8; 4] = [0x7f, 0x45, 0x4c, 0x46];

/// Size in bytes of the file header on disk.
pub const HEADER_SIZE: usize = 64;

/// Size in bytes of one section header on disk.
pub const SECTION_HEADER_SIZE: usize = 64;

/// Size in bytes of one symbol-table entry on disk.
pub const SYMBOL_SIZE: usize = 24;

proof fn lemma_u16_field(raw: Seq<u8>)
    requires
        raw.len() == 2,
    ensures
        le_value(raw) <= u16::MAX,
        le_bytes((le_value(raw) as u16) as nat, 2) == raw,
{
    lemma_capacities();
    lemma_le_value_bound(raw);
    lemma_le_bytes_of_value(raw);
}

proof fn lemma_u32_field(raw: Seq<u8>)
    requires
        raw.len() == 4,
    ensures
        le_value(raw) <= u32::MAX,
        le_bytes((le_value(raw) as u32) as nat, 4) == raw,
{
    lemma_capacities();
    lemma_le_value_bound(raw);
    lemma_le_bytes_of_value(raw);
}

proof fn lemma_u64_field(raw: Seq<u8>)
    requires
        raw.len() == 8,
    ensures
        le_value(raw) <= u64::MAX,
        le_bytes((le_value(raw) as u64) as nat, 8) == raw,
{
    lemma_capacities();
    lemma_le_value_bound(raw);
    lemma_le_bytes_of_value(raw);
}

proof fn lemma_written_fields(a: u16, b: u32, c: u64)
    ensures
        le_value(le_bytes(a as nat, 2)) == a,
        le_value(le_bytes(b as nat, 4)) == b,
        le_value(le_bytes(c as nat, 8)) == c,
{
    lemma_capacities();
    lemma_le_value_of_bytes(a as nat, 2);
    lemma_le_value_of_bytes(b as nat, 4);
    lemma_le_value_of_bytes(c as nat, 8);
}

fn two(bytes: &[u8], at: usize) -> (raw: [u8; 2])
    requires
        at + 2 <= bytes@.len(),
    ensures
        raw@ == bytes@.subrange(at as int, at + 2),
{
    let raw = [bytes[at], bytes[at + 1]];
    assert(raw@ =~= bytes@.subrange(at as int, at + 2));
    raw
}

fn four(bytes: &[u8], at: usize) -> (raw: [u8; 4])
    requires
        at + 4 <= bytes@.len(),
    ensures
        raw@ == bytes@.subrange(at as int, at + 4),
{
    let raw = [bytes[at], bytes[at + 1], bytes[at + 2], bytes[at + 3]];
    assert(raw@ =~= bytes@.subrange(at as int, at + 4));
    raw
}

fn eight(bytes: &[u8], at: usize) -> (raw: [u8; 8])
    requires
        at + 8 <= bytes@.len(),
    ensures
        raw@ == bytes@.subrange(at as int, at + 8),
{
    let raw = [
        bytes[at],
        bytes[at + 1],
        bytes[at + 2],
        bytes[at + 3],
        bytes[at + 4],
        bytes[at + 5],
        bytes[at + 6],
        bytes[at + 7],
    ];
    assert(raw@ =~= bytes@.subrange(at as int, at + 8));
    raw
}

/// The field values of a section header.
pub struct SectionHeaderFields {
    pub name: u32,
    pub s_type: u32,
    pub flags: u64,
    pub addr: u64,
    pub offset: u64,
    pub size: u64,
    pub link: u32,
    pub info: u32,
    pub align: u64,
    pub entry_size: u64,
}

/// The 64 bytes of a section header with the given field values.
pub open spec fn section_header_bytes(f: SectionHeaderFields) -> Seq<u8> {
    le_bytes(f.name as nat, 4) + le_bytes(f.s_type as nat, 4) + le_bytes(f.flags as nat, 8)
        + le_bytes(f.addr as nat, 8) + le_bytes(f.offset as nat, 8) + le_bytes(f.size as nat, 8)
        + le_bytes(f.link as nat, 4) + le_bytes(f.info as nat, 4) + le_bytes(f.align as nat, 8)
        + le_bytes(f.entry_size as nat, 8)
}

/// A section header whose fields are all zero.
pub open spec fn null_section_header() -> SectionHeaderFields {
    SectionHeaderFields {
        name: 0,
        s_type: 0,
        flags: 0,
        addr: 0,
        offset: 0,
        size: 0,
        link: 0,
        info: 0,
        align: 0,
        entry_size: 0,
    }
}

/// Every section header occupies `SECTION_HEADER_SIZE` bytes.
pub proof fn lemma_section_header_bytes_len(f: SectionHeaderFields)
    ensures
        section_header_bytes(f).len() == SECTION_HEADER_SIZE,
{
    crate::endian::lemma_le_bytes_len(f.name as nat, 4);
    crate::endian::lemma_le_bytes_len(f.s_type as nat, 4);
    crate::endian::lemma_le_bytes_len(f.flags as nat, 8);
    crate::endian::lemma_le_bytes_len(f.addr as nat, 8);
    crate::endian::lemma_le_bytes_len(f.offset as nat, 8);
    crate::endian::lemma_le_bytes_len(f.size as nat, 8);
    crate::endian::lemma_le_bytes_len(f.link as nat, 4);
    crate::endian::lemma_le_bytes_len(f.info as nat, 4);
    crate::endian::lemma_le_bytes_len(f.align as nat, 8);
    crate::endian::lemma_le_bytes_len(f.entry_size as nat, 8);
}

proof fn lemma_same_u32(bytes_a: Seq<u8>, bytes_b: Seq<u8>, a: u32, b: u32, at: int)
    requires
        bytes_a == bytes_b,
        0 <= at,
        at + 4 <= bytes_a.len(),
        bytes_a.subrange(at, at + 4) == le_bytes(a as nat, 4),
        bytes_b.subrange(at, at + 4) == le_bytes(b as nat, 4),
    ensures
        a == b,
{
    lemma_capacities();
    crate::endian::lemma_le_bytes_injective(a as nat, b as nat, 4);
}

proof fn lemma_same_u16(bytes_a: Seq<u8>, bytes_b: Seq<u8>, a: u16, b: u16, at: int)
    requires
        bytes_a == bytes_b,
        0 <= at,
        at + 2 <= bytes_a.len(),
        bytes_a.subrange(at, at + 2) == le_bytes(a as nat, 2),
        bytes_b.subrange(at, at + 2) == le_bytes(b as nat, 2),
    ensures
        a == b,
{
    lemma_capacities();
    crate::endian::lemma_le_bytes_injective(a as nat, b as nat, 2);
}

proof fn lemma_same_u64(bytes_a: Seq<u8>, bytes_b: Seq<u8>, a: u64, b: u64, at: int)
    requires
        bytes_a == bytes_b,
        0 <= at,
        at + 8 <= bytes_a.len(),
        bytes_a.subrange(at, at + 8) == le_bytes(a as nat, 8),
        bytes_b.subrange(at, at + 8) == le_bytes(b as nat, 8),
    ensures
        a == b,
{
    lemma_capacities();
    crate::endian::lemma_le_bytes_injective(a as nat, b as nat, 8);
}

/// The bytes of a section header hold each field at its fixed place.
pub proof fn lemma_section_header_fields_at(f: SectionHeaderFields)
    ensures
        section_header_bytes(f).len() == SECTION_HEADER_SIZE,
        section_header_bytes(f).subrange(0, 4) == le_bytes(f.name as nat, 4),
        section_header_bytes(f).subrange(4, 8) == le_bytes(f.s_type as nat, 4),
        section_header_bytes(f).subrange(8, 16) == le_bytes(f.flags as nat, 8),
        section_header_bytes(f).subrange(16, 24) == le_bytes(f.addr as nat, 8),
        section_header_bytes(f).subrange(24, 32) == le_bytes(f.offset as nat, 8),
        section_header_bytes(f).subrange(32, 40) == le_bytes(f.size as nat, 8),
        section_header_bytes(f).subrange(40, 44) == le_bytes(f.link as nat, 4),
        section_header_bytes(f).subrange(44, 48) == le_bytes(f.info as nat, 4),
        section_header_bytes(f).subrange(48, 56) == le_bytes(f.align as nat, 8),
        section_header_bytes(f).subrange(56, 64) == le_bytes(f.entry_size as nat, 8),
{
    lemma_section_header_bytes_len(f);
    crate::endian::lemma_le_bytes_len(f.name as nat, 4);
    crate::endian::lemma_le_bytes_len(f.s_type as nat, 4);
    crate::endian::lemma_le_bytes_len(f.flags as nat, 8);
    crate::endian::lemma_le_bytes_len(f.addr as nat, 8);
    crate::endian::lemma_le_bytes_len(f.offset as nat, 8);
    crate::endian::lemma_le_bytes_len(f.size as nat, 8);
    crate::endian::lemma_le_bytes_len(f.link as nat, 4);
    crate::endian::lemma_le_bytes_len(f.info as nat, 4);
    crate::endian::lemma_le_bytes_len(f.align as nat, 8);
    crate::endian::lemma_le_bytes_len(f.entry_size as nat, 8);
    let b = section_header_bytes(f);
    assert(b.subrange(0, 4) =~= le_bytes(f.name as nat, 4));
    assert(b.subrange(4, 8) =~= le_bytes(f.s_type as nat, 4));
    assert(b.subrange(8, 16) =~= le_bytes(f.flags as nat, 8));
    assert(b.subrange(16, 24) =~= le_bytes(f.addr as nat, 8));
    assert(b.subrange(24, 32) =~= le_bytes(f.offset as nat, 8));
    assert(b.subrange(32, 40) =~= le_bytes(f.size as nat, 8));
    assert(b.subrange(40, 44) =~= le_bytes(f.link as nat, 4));
    assert(b.subrange(44, 48) =~= le_bytes(f.info as nat, 4));
    assert(b.subrange(48, 56) =~= le_bytes(f.align as nat, 8));
    assert(b.subrange(56, 64) =~= le_bytes(f.entry_size as nat, 8));
}

/// Section headers with the same bytes have the same fields: decoding the
/// bytes of a header gives the header back.
pub proof fn lemma_section_header_round_trip(a: SectionHeaderFields, b: SectionHeaderFields)
    requires
        section_header_bytes(a) == section_header_bytes(b),
    ensures
        a == b,
{
    let x = section_header_bytes(a);
    let y = section_header_bytes(b);
    lemma_section_header_fields_at(a);
    lemma_section_header_fields_at(b);
    lemma_same_u32(x, y, a.name, b.name, 0);
    lemma_same_u32(x, y, a.s_type, b.s_type, 4);
    lemma_same_u64(x, y, a.flags, b.flags, 8);
    lemma_same_u64(x, y, a.addr, b.addr, 16);
    lemma_same_u64(x, y, a.offset, b.offset, 24);
    lemma_same_u64(x, y, a.size, b.size, 32);
    lemma_same_u32(x, y, a.link, b.link, 40);
    lemma_same_u32(x, y, a.info, b.info, 44);
    lemma_same_u64(x, y, a.align, b.align, 48);
    lemma_same_u64(x, y, a.entry_size, b.entry_size, 56);
}

/// One entry of the section header table.
#[derive(Debug)]
pub struct Elf64SectionHeader {
    name: [u8; 4],
    s_type: [u8; 4],
    flags: [u8; 8],
    addr: [u8; 8],
    offset: [u8; 8],
    size: [u8; 8],
    link: [u8; 4],
    info: [u8; 4],
    align: [u8; 8],
    entry_size: [u8; 8],
}

impl View for Elf64SectionHeader {
    type V = SectionHeaderFields;

    closed spec fn view(&self) -> SectionHeaderFields {
        SectionHeaderFields {
            name: le_value(self.name@) as u32,
            s_type: le_value(self.s_type@) as u32,
            flags: le_value(self.flags@) as u64,
            addr: le_value(self.addr@) as u64,
            offset: le_value(self.offset@) as u64,
            size: le_value(self.size@) as u64,
            link: le_value(self.link@) as u32,
            info: le_value(self.info@) as u32,
            align: le_value(self.align@) as u64,
            entry_size: le_value(self.entry_size@) as u64,
        }
    }
}

impl Elf64SectionHeader {
    /// A record with the given field values.
    pub fn new(
        name: u32,
        s_type: u32,
        flags: u64,
        addr: u64,
        offset: u64,
        size: u64,
        link: u32,
        info: u32,
        align: u64,
        entry_size: u64,
    ) -> (header: Self)
        ensures
            header@ == (SectionHeaderFields {
                name,
                s_type,
                flags,
                addr,
                offset,
                size,
                link,
                info,
                align,
                entry_size,
            }),
    {
        let mut header = Self::default();
        header.set_name(name);
        header.set_s_type(s_type);
        header.set_flags(flags);
        header.set_addr(addr);
        header.set_offset(offset);
        header.set_size(size);
        header.set_link(link);
        header.set_info(info);
        header.set_align(align);
        header.set_entry_size(entry_size);
        header
    }

    /// The header as it stands in the file: its fields in order, each little-endian.
    pub fn as_u8_slice(&self) -> (bytes: Vec<u8>)
        ensures
            bytes@ == section_header_bytes(self@),
            bytes@.len() == SECTION_HEADER_SIZE,
    {
        let mut bytes: Vec<u8> = Vec::new();
        bytes.extend_from_slice(self.name.as_slice());
        bytes.extend_from_slice(self.s_type.as_slice());
        bytes.extend_from_slice(self.flags.as_slice());
        bytes.extend_from_slice(self.addr.as_slice());
        bytes.extend_from_slice(self.offset.as_slice());
        bytes.extend_from_slice(self.size.as_slice());
        bytes.extend_from_slice(self.link.as_slice());
        bytes.extend_from_slice(self.info.as_slice());
        bytes.extend_from_slice(self.align.as_slice());
        bytes.extend_from_slice(self.entry_size.as_slice());
        proof {
            lemma_u32_field(self.name@);
            lemma_u32_field(self.s_type@);
            lemma_u64_field(self.flags@);
            lemma_u64_field(self.addr@);
            lemma_u64_field(self.offset@);
            lemma_u64_field(self.size@);
            lemma_u32_field(self.link@);
            lemma_u32_field(self.info@);
            lemma_u64_field(self.align@);
            lemma_u64_field(self.entry_size@);
            lemma_section_header_bytes_len(self@);
        }
        bytes
    }

    /// The header that stands in the file as `bytes`, where `bytes` has the
    /// length of a header.
    pub fn from_u8_slice(bytes: &[u8]) -> (header: Option<Self>)
        ensures
            header is Some <==> bytes@.len() == SECTION_HEADER_SIZE,
            header matches Some(h) ==> section_header_bytes(h@) == bytes@,
    {
        if bytes.len() != SECTION_HEADER_SIZE {
            return None;
        }
        let header = Self {
            name: four(bytes, 0),
            s_type: four(bytes, 4),
            flags: eight(bytes, 8),
            addr: eight(bytes, 16),
            offset: eight(bytes, 24),
            size: eight(bytes, 32),
            link: four(bytes, 40),
            info: four(bytes, 44),
            align: eight(bytes, 48),
            entry_size: eight(bytes, 56),
        };
        proof {
            lemma_u32_field(header.name@);
            lemma_u32_field(header.s_type@);
            lemma_u64_field(header.flags@);
            lemma_u64_field(header.addr@);
            lemma_u64_field(header.offset@);
            lemma_u64_field(header.size@);
            lemma_u32_field(header.link@);
            lemma_u32_field(header.info@);
            lemma_u64_field(header.align@);
            lemma_u64_field(header.entry_size@);
            assert(section_header_bytes(header@) =~= bytes@);
        }
        Some(header)
    }

    /// The field `name`.
    pub fn name(&self) -> (value: u32)
        ensures
            value == self@.name,
    {
        read_u32(&self.name)
    }

    /// Sets the field `name`.
    pub fn set_name(&mut self, name: u32)
        ensures
            final(self)@ == (SectionHeaderFields { name, ..old(self)@ }),
    {
        let mut buf = [0u8; 4];
        write_u32(&mut buf, name);
        self.name = buf;
        proof {
            lemma_written_fields(0, name, 0);
        }
    }

    /// The field `s_type`.
    pub fn s_type(&self) -> (value: u32)
        ensures
            value == self@.s_type,
    {
        read_u32(&self.s_type)
    }

    /// Sets the field `s_type`.
    pub fn set_s_type(&mut self, s_type: u32)
        ensures
            final(self)@ == (SectionHeaderFields { s_type, ..old(self)@ }),
    {
        let mut buf = [0u8; 4];
        write_u32(&mut buf, s_type);
        self.s_type = buf;
        proof {
            lemma_written_fields(0, s_type, 0);
        }
    }

    /// The field `flags`.
    pub fn flags(&self) -> (value: u64)
        ensures
            value == self@.flags,
    {
        read_u64(&self.flags)
    }

    /// Sets the field `flags`.
    pub fn set_flags(&mut self, flags: u64)
        ensures
            final(self)@ == (SectionHeaderFields { flags, ..old(self)@ }),
    {
        let mut buf = [0u8; 8];
        write_u64(&mut buf, flags);
        self.flags = buf;
        proof {
            lemma_written_fields(0, 0, flags);
        }
    }

    /// The field `addr`.
    pub fn addr(&self) -> (value: u64)
        ensures
            value == self@.addr,
    {
        read_u64(&self.addr)
    }

    /// Sets the field `addr`.
    pub fn set_addr(&mut self, addr: u64)
        ensures
            final(self)@ == (SectionHeaderFields { addr, ..old(self)@ }),
    {
        let mut buf = [0u8; 8];
        write_u64(&mut buf, addr);
        self.addr = buf;
        proof {
            lemma_written_fields(0, 0, addr);
        }
    }

    /// The field `offset`.
    pub fn offset(&self) -> (value: u64)
        ensures
            value == self@.offset,
    {
        read_u64(&self.offset)
    }

    /// Sets the field `offset`.
    pub fn set_offset(&mut self, offset: u64)
        ensures
            final(self)@ == (SectionHeaderFields { offset, ..old(self)@ }),
    {
        let mut buf = [0u8; 8];
        write_u64(&mut buf, offset);
        self.offset = buf;
        proof {
            lemma_written_fields(0, 0, offset);
        }
    }

    /// The field `size`.
    pub fn size(&self) -> (value: u64)
        ensures
            value == self@.size,
    {
        read_u64(&self.size)
    }

    /// Sets the field `size`.
    pub fn set_size(&mut self, size: u64)
        ensures
            final(self)@ == (SectionHeaderFields { size, ..old(self)@ }),
    {
        let mut buf = [0u8; 8];
        write_u64(&mut buf, size);
        self.size = buf;
        proof {
            lemma_written_fields(0, 0, size);
        }
    }

    /// The field `link`.
    pub fn link(&self) -> (value: u32)
        ensures
            value == self@.link,
    {
        read_u32(&self.link)
    }

    /// Sets the field `link`.
    pub fn set_link(&mut self, link: u32)
        ensures
            final(self)@ == (SectionHeaderFields { link, ..old(self)@ }),
    {
        let mut buf = [0u8; 4];
        write_u32(&mut buf, link);
        self.link = buf;
        proof {
            lemma_written_fields(0, link, 0);
        }
    }

    /// The field `info`.
    pub fn info(&self) -> (value: u32)
        ensures
            value == self@.info,
    {
        read_u32(&self.info)
    }

    /// Sets the field `info`.
    pub fn set_info(&mut self, info: u32)
        ensures
            final(self)@ == (SectionHeaderFields { info, ..old(self)@ }),
    {
        let mut buf = [0u8; 4];
        write_u32(&mut buf, info);
        self.info = buf;
        proof {
            lemma_written_fields(0, info, 0);
        }
    }

    /// The field `align`.
    pub fn align(&self) -> (value: u64)
        ensures
            value == self@.align,
    {
        read_u64(&self.align)
    }

    /// Sets the field `align`.
    pub fn set_align(&mut self, align: u64)
        ensures
            final(self)@ == (SectionHeaderFields { align, ..old(self)@ }),
    {
        let mut buf = [0u8; 8];
        write_u64(&mut buf, align);
        self.align = buf;
        proof {
            lemma_written_fields(0, 0, align);
        }
    }

    /// The field `entry_size`.
    pub fn entry_size(&self) -> (value: u64)
        ensures
            value == self@.entry_size,
    {
        read_u64(&self.entry_size)
    }

    /// Sets the field `entry_size`.
    pub fn set_entry_size(&mut self, entry_size: u64)
        ensures
            final(self)@ == (SectionHeaderFields { entry_size, ..old(self)@ }),
    {
        let mut buf = [0u8; 8];
        write_u64(&mut buf, entry_size);
        self.entry_size = buf;
        proof {
            lemma_written_fields(0, 0, entry_size);
        }
    }
}

impl Default for Elf64SectionHeader {
    /// A record whose fields are all zero.
    fn default() -> (header: Self)
        ensures
            header@ == null_section_header(),
    {
        let header = Self {
            name: [0; 4],
            s_type: [0; 4],
            flags: [0; 8],
            addr: [0; 8],
            offset: [0; 8],
            size: [0; 8],
            link: [0; 4],
            info: [0; 4],
            align: [0; 8],
            entry_size: [0; 8],
        };
        proof {
            lemma_zero_value(header.name@);
            lemma_zero_value(header.s_type@);
            lemma_zero_value(header.flags@);
            lemma_zero_value(header.addr@);
            lemma_zero_value(header.offset@);
            lemma_zero_value(header.size@);
            lemma_zero_value(header.link@);
            lemma_zero_value(header.info@);
            lemma_zero_value(header.align@);
            lemma_zero_value(header.entry_size@);
        }
        header
    }
}

/// Symbol binding of a symbol that is visible in its own object file only.
pub const STB_LOCAL: u8 = 0;

/// Symbol binding of a symbol that is visible to every object file being linked.
pub const STB_GLOBAL: u8 = 1;

/// Symbol type of a symbol without a type.
pub const STT_NOTYPE: u8 = 0;

/// Symbol type of a symbol that stands for a section.
pub const STT_SECTION: u8 = 3;

/// Symbol type of the symbol that names the source file.
pub const STT_FILE: u8 = 4;

/// Section index of a symbol whose value is absolute.
pub const SHN_ABS: u16 = 0xfff1;

/// Section type of a section that holds program data.
pub const SHT_PROGBITS: u32 = 1;

/// Section type of a symbol table.
pub const SHT_SYMTAB: u32 = 2;

/// Section type of a string table.
pub const SHT_STRTAB: u32 = 3;

/// Section flag: the section occupies memory during execution.
pub const SHF_ALLOC: u64 = 2;

/// Section flag: the section holds executable machine instructions.
pub const SHF_EXECINSTR: u64 = 4;

/// The `info` byte of a symbol: the binding in the high four bits, the type
/// in the low four.
pub open spec fn symbol_info_spec(binding: u8, symbol_type: u8) -> u8 {
    (binding << 4) | (symbol_type & 0xf)
}

/// Packs a binding and a type into the `info` byte of a symbol.
pub fn symbol_info(binding: u8, symbol_type: u8) -> (info: u8)
    ensures
        info == symbol_info_spec(binding, symbol_type),
{
    (binding << 4) | (symbol_type & 0xf)
}

/// Both halves of an `info` byte can be read back, as long as each fits in
/// four bits.
pub proof fn lemma_symbol_info_parts(binding: u8, symbol_type: u8)
    requires
        binding < 16,
        symbol_type < 16,
    ensures
        symbol_info_spec(binding, symbol_type) >> 4 == binding,
        symbol_info_spec(binding, symbol_type) & 0xf == symbol_type,
        symbol_info_spec(binding, symbol_type) == binding * 16 + symbol_type,
{
    assert(binding < 16 && symbol_type < 16 ==> ((binding << 4) | (symbol_type & 0xf)) >> 4
        == binding) by (bit_vector);
    assert(binding < 16 && symbol_type < 16 ==> ((binding << 4) | (symbol_type & 0xf)) & 0xf
        == symbol_type) by (bit_vector);
    assert(binding < 16 && symbol_type < 16 ==> ((binding << 4) | (symbol_type & 0xf)) == binding
        * 16 + symbol_type) by (bit_vector);
}

/// The field values of a symbol-table entry.
pub struct SymbolFields {
    pub name: u32,
    pub info: u8,
    pub other: u8,
    pub index: u16,
    pub value: u64,
    pub size: u64,
}

/// The 24 bytes of a symbol-table entry with the given field values.
pub open spec fn symbol_bytes(f: SymbolFields) -> Seq<u8> {
    le_bytes(f.name as nat, 4) + seq![f.info, f.other] + le_bytes(f.index as nat, 2) + le_bytes(
        f.value as nat,
        8,
    ) + le_bytes(f.size as nat, 8)
}

/// A symbol-table entry whose fields are all zero.
pub open spec fn null_symbol() -> SymbolFields {
    SymbolFields { name: 0, info: 0, other: 0, index: 0, value: 0, size: 0 }
}

/// Every symbol-table entry occupies `SYMBOL_SIZE` bytes.
pub proof fn lemma_symbol_bytes_len(f: SymbolFields)
    ensures
        symbol_bytes(f).len() == SYMBOL_SIZE,
{
    crate::endian::lemma_le_bytes_len(f.name as nat, 4);
    crate::endian::lemma_le_bytes_len(f.index as nat, 2);
    crate::endian::lemma_le_bytes_len(f.value as nat, 8);
    crate::endian::lemma_le_bytes_len(f.size as nat, 8);
}

/// The bytes of a symbol-table entry hold each field at its fixed place.
pub proof fn lemma_symbol_fields_at(f: SymbolFields)
    ensures
        symbol_bytes(f).len() == SYMBOL_SIZE,
        symbol_bytes(f).subrange(0, 4) == le_bytes(f.name as nat, 4),
        symbol_bytes(f)[4] == f.info,
        symbol_bytes(f)[5] == f.other,
        symbol_bytes(f).subrange(6, 8) == le_bytes(f.index as nat, 2),
        symbol_bytes(f).subrange(8, 16) == le_bytes(f.value as nat, 8),
        symbol_bytes(f).subrange(16, 24) == le_bytes(f.size as nat, 8),
{
    lemma_symbol_bytes_len(f);
    crate::endian::lemma_le_bytes_len(f.name as nat, 4);
    crate::endian::lemma_le_bytes_len(f.index as nat, 2);
    crate::endian::lemma_le_bytes_len(f.value as nat, 8);
    crate::endian::lemma_le_bytes_len(f.size as nat, 8);
    let b = symbol_bytes(f);
    assert(b.subrange(0, 4) =~= le_bytes(f.name as nat, 4));
    assert(b.subrange(6, 8) =~= le_bytes(f.index as nat, 2));
    assert(b.subrange(8, 16) =~= le_bytes(f.value as nat, 8));
    assert(b.subrange(16, 24) =~= le_bytes(f.size as nat, 8));
}

/// Symbol-table entries with the same bytes have the same fields: decoding
/// the bytes of an entry gives the entry back.
pub proof fn lemma_symbol_round_trip(a: SymbolFields, b: SymbolFields)
    requires
        symbol_bytes(a) == symbol_bytes(b),
    ensures
        a == b,
{
    let x = symbol_bytes(a);
    let y = symbol_bytes(b);
    lemma_symbol_fields_at(a);
    lemma_symbol_fields_at(b);
    lemma_same_u32(x, y, a.name, b.name, 0);
    lemma_same_u16(x, y, a.index, b.index, 6);
    lemma_same_u64(x, y, a.value, b.value, 8);
    lemma_same_u64(x, y, a.size, b.size, 16);
}

/// One entry of the symbol table.
#[derive(Debug)]
pub struct Elf64SymbolTableSection {
    name: [u8; 4],
    info: u8,
    other: u8,
    index: [u8; 2],
    value: [u8; 8],
    size: [u8; 8],
}

impl View for Elf64SymbolTableSection {
    type V = SymbolFields;

    closed spec fn view(&self) -> SymbolFields {
        SymbolFields {
            name: le_value(self.name@) as u32,
            info: self.info,
            other: self.other,
            index: le_value(self.index@) as u16,
            value: le_value(self.value@) as u64,
            size: le_value(self.size@) as u64,
        }
    }
}

impl Elf64SymbolTableSection {
    /// A record with the given field values.
    pub fn new(name: u32, info: u8, other: u8, index: u16, value: u64, size: u64) -> (section: Self)
        ensures
            section@ == (SymbolFields { name, info, other, index, value, size }),
    {
        let mut section = Self::default();
        section.set_name(name);
        section.set_info(info);
        section.set_other(other);
        section.set_index(index);
        section.set_value(value);
        section.set_size(size);
        section
    }

    /// The entry as it stands in the file: its fields in order, each little-endian.
    pub fn as_u8_slice(&self) -> (bytes: Vec<u8>)
        ensures
            bytes@ == symbol_bytes(self@),
            bytes@.len() == SYMBOL_SIZE,
    {
        let mut bytes: Vec<u8> = Vec::new();
        bytes.extend_from_slice(self.name.as_slice());
        bytes.push(self.info);
        bytes.push(self.other);
        bytes.extend_from_slice(self.index.as_slice());
        bytes.extend_from_slice(self.value.as_slice());
        bytes.extend_from_slice(self.size.as_slice());
        proof {
            lemma_u32_field(self.name@);
            lemma_u16_field(self.index@);
            lemma_u64_field(self.value@);
            lemma_u64_field(self.size@);
            lemma_symbol_bytes_len(self@);
            assert(bytes@ =~= symbol_bytes(self@));
        }
        bytes
    }

    /// The entry that stands in the file as `bytes`, where `bytes` has the
    /// length of an entry.
    pub fn from_u8_slice(bytes: &[u8]) -> (section: Option<Self>)
        ensures
            section is Some <==> bytes@.len() == SYMBOL_SIZE,
            section matches Some(s) ==> symbol_bytes(s@) == bytes@,
    {
        if bytes.len() != SYMBOL_SIZE {
            return None;
        }
        let section = Self {
            name: four(bytes, 0),
            info: bytes[4],
            other: bytes[5],
            index: two(bytes, 6),
            value: eight(bytes, 8),
            size: eight(bytes, 16),
        };
        proof {
            lemma_u32_field(section.name@);
            lemma_u16_field(section.index@);
            lemma_u64_field(section.value@);
            lemma_u64_field(section.size@);
            assert(symbol_bytes(section@) =~= bytes@);
        }
        Some(section)
    }

    /// The field `name`.
    pub fn name(&self) -> (value: u32)
        ensures
            value == self@.name,
    {
        read_u32(&self.name)
    }

    /// Sets the field `name`.
    pub fn set_name(&mut self, name: u32)
        ensures
            final(self)@ == (SymbolFields { name, ..old(self)@ }),
    {
        let mut buf = [0u8; 4];
        write_u32(&mut buf, name);
        self.name = buf;
        proof {
            lemma_written_fields(0, name, 0);
        }
    }

    /// The field `info`.
    pub fn info(&self) -> (value: u8)
        ensures
            value == self@.info,
    {
        self.info
    }

    /// Sets the field `info`.
    pub fn set_info(&mut self, info: u8)
        ensures
            final(self)@ == (SymbolFields { info, ..old(self)@ }),
    {
        self.info = info;
    }

    /// The field `other`.
    pub fn other(&self) -> (value: u8)
        ensures
            value == self@.other,
    {
        self.other
    }

    /// Sets the field `other`.
    pub fn set_other(&mut self, other: u8)
        ensures
            final(self)@ == (SymbolFields { other, ..old(self)@ }),
    {
        self.other = other;
    }

    /// The field `index`.
    pub fn index(&self) -> (value: u16)
        ensures
            value == self@.index,
    {
        read_u16(&self.index)
    }

    /// Sets the field `index`.
    pub fn set_index(&mut self, index: u16)
        ensures
            final(self)@ == (SymbolFields { index, ..old(self)@ }),
    {
        let mut buf = [0u8; 2];
        write_u16(&mut buf, index);
        self.index = buf;
        proof {
            lemma_written_fields(index, 0, 0);
        }
    }

    /// The field `value`.
    pub fn value(&self) -> (value: u64)
        ensures
            value == self@.value,
    {
        read_u64(&self.value)
    }

    /// Sets the field `value`.
    pub fn set_value(&mut self, value: u64)
        ensures
            final(self)@ == (SymbolFields { value, ..old(self)@ }),
    {
        let mut buf = [0u8; 8];
        write_u64(&mut buf, value);
        self.value = buf;
        proof {
            lemma_written_fields(0, 0, value);
        }
    }

    /// The field `size`.
    pub fn size(&self) -> (value: u64)
        ensures
            value == self@.size,
    {
        read_u64(&self.size)
    }

    /// Sets the field `size`.
    pub fn set_size(&mut self, size: u64)
        ensures
            final(self)@ == (SymbolFields { size, ..old(self)@ }),
    {
        let mut buf = [0u8; 8];
        write_u64(&mut buf, size);
        self.size = buf;
        proof {
            lemma_written_fields(0, 0, size);
        }
    }
}

impl Default for Elf64SymbolTableSection {
    /// A record whose fields are all zero.
    fn default() -> (section: Self)
        ensures
            section@ == null_symbol(),
    {
        let section = Self {
            name: [0; 4],
            info: 0,
            other: 0,
            index: [0; 2],
            value: [0; 8],
            size: [0; 8],
        };
        proof {
            lemma_zero_value(section.name@);
            lemma_zero_value(section.index@);
            lemma_zero_value(section.value@);
            lemma_zero_value(section.size@);
        }
        section
    }
}

/// The field values of the file header.
pub struct HeaderFields {
    pub magic_nums: Seq<u8>,
    pub class: u8,
    pub endian: u8,
    pub version: u8,
    pub abi: u8,
    pub abi_version: u8,
    pub reserved: Seq<u8>,
    pub object_type: u16,
    pub machine_type: u16,
    pub version2: u32,
    pub entry: u64,
    pub program_header_offset: u64,
    pub section_header_offset: u64,
    pub flags: u32,
    pub header_size: u16,
    pub program_header_size: u16,
    pub program_header_num: u16,
    pub section_header_size: u16,
    pub section_header_num: u16,
    pub section_header_str_index: u16,
}

/// The 64 bytes of a file header with the given field values.
pub open spec fn header_bytes(f: HeaderFields) -> Seq<u8> {
    f.magic_nums + seq![f.class, f.endian, f.version, f.abi, f.abi_version] + f.reserved
        + le_bytes(f.object_type as nat, 2) + le_bytes(f.machine_type as nat, 2) + le_bytes(
        f.version2 as nat,
        4,
    ) + le_bytes(f.entry as nat, 8) + le_bytes(f.program_header_offset as nat, 8) + le_bytes(
        f.section_header_offset as nat,
        8,
    ) + le_bytes(f.flags as nat, 4) + le_bytes(f.header_size as nat, 2) + le_bytes(
        f.program_header_size as nat,
        2,
    ) + le_bytes(f.program_header_num as nat, 2) + le_bytes(f.section_header_size as nat, 2)
        + le_bytes(f.section_header_num as nat, 2) + le_bytes(f.section_header_str_index as nat, 2)
}

/// The header of a relocatable x86-64 object that has no program headers,
/// whose section header table follows the header at once and holds five
/// entries, the third of them (index 2) the table of section names.
pub open spec fn template_header() -> HeaderFields {
    HeaderFields {
        magic_nums: seq![0x7fu8, 0x45u8, 0x4cu8, 0x46u8],
        class: 2,
        endian: 1,
        version: 1,
        abi: 0,
        abi_version: 0,
        reserved: seq![0u8, 0u8, 0u8, 0u8, 0u8, 0u8, 0u8],
        object_type: 1,
        machine_type: 0x3e,
        version2: 1,
        entry: 0,
        program_header_offset: 0,
        section_header_offset: 0x40,
        flags: 0,
        header_size: 0x40,
        program_header_size: 0,
        program_header_num: 0,
        section_header_size: 0x40,
        section_header_num: 5,
        section_header_str_index: 2,
    }
}

/// A file header whose byte strings have their fixed lengths occupies
/// `HEADER_SIZE` bytes.
pub proof fn lemma_header_bytes_len(f: HeaderFields)
    requires
        f.magic_nums.len() == 4,
        f.reserved.len() == 7,
    ensures
        header_bytes(f).len() == HEADER_SIZE,
{
    crate::endian::lemma_le_bytes_len(f.object_type as nat, 2);
    crate::endian::lemma_le_bytes_len(f.machine_type as nat, 2);
    crate::endian::lemma_le_bytes_len(f.version2 as nat, 4);
    crate::endian::lemma_le_bytes_len(f.entry as nat, 8);
    crate::endian::lemma_le_bytes_len(f.program_header_offset as nat, 8);
    crate::endian::lemma_le_bytes_len(f.section_header_offset as nat, 8);
    crate::endian::lemma_le_bytes_len(f.flags as nat, 4);
    crate::endian::lemma_le_bytes_len(f.header_size as nat, 2);
    crate::endian::lemma_le_bytes_len(f.program_header_size as nat, 2);
    crate::endian::lemma_le_bytes_len(f.program_header_num as nat, 2);
    crate::endian::lemma_le_bytes_len(f.section_header_size as nat, 2);
    crate::endian::lemma_le_bytes_len(f.section_header_num as nat, 2);
    crate::endian::lemma_le_bytes_len(f.section_header_str_index as nat, 2);
}

/// The bytes of a file header hold each field at its fixed place.
pub proof fn lemma_header_fields_at(f: HeaderFields)
    requires
        f.magic_nums.len() == 4,
        f.reserved.len() == 7,
    ensures
        header_bytes(f).len() == HEADER_SIZE,
        header_bytes(f).subrange(0, 4) == f.magic_nums,
        header_bytes(f)[4] == f.class,
        header_bytes(f)[5] == f.endian,
        header_bytes(f)[6] == f.version,
        header_bytes(f)[7] == f.abi,
        header_bytes(f)[8] == f.abi_version,
        header_bytes(f).subrange(9, 16) == f.reserved,
        header_bytes(f).subrange(16, 18) == le_bytes(f.object_type as nat, 2),
        header_bytes(f).subrange(18, 20) == le_bytes(f.machine_type as nat, 2),
        header_bytes(f).subrange(20, 24) == le_bytes(f.version2 as nat, 4),
        header_bytes(f).subrange(24, 32) == le_bytes(f.entry as nat, 8),
        header_bytes(f).subrange(32, 40) == le_bytes(f.program_header_offset as nat, 8),
        header_bytes(f).subrange(40, 48) == le_bytes(f.section_header_offset as nat, 8),
        header_bytes(f).subrange(48, 52) == le_bytes(f.flags as nat, 4),
        header_bytes(f).subrange(52, 54) == le_bytes(f.header_size as nat, 2),
        header_bytes(f).subrange(54, 56) == le_bytes(f.program_header_size as nat, 2),
        header_bytes(f).subrange(56, 58) == le_bytes(f.program_header_num as nat, 2),
        header_bytes(f).subrange(58, 60) == le_bytes(f.section_header_size as nat, 2),
        header_bytes(f).subrange(60, 62) == le_bytes(f.section_header_num as nat, 2),
        header_bytes(f).subrange(62, 64) == le_bytes(f.section_header_str_index as nat, 2),
{
    lemma_header_bytes_len(f);
    crate::endian::lemma_le_bytes_len(f.object_type as nat, 2);
    crate::endian::lemma_le_bytes_len(f.machine_type as nat, 2);
    crate::endian::lemma_le_bytes_len(f.version2 as nat, 4);
    crate::endian::lemma_le_bytes_len(f.entry as nat, 8);
    crate::endian::lemma_le_bytes_len(f.program_header_offset as nat, 8);
    crate::endian::lemma_le_bytes_len(f.section_header_offset as nat, 8);
    crate::endian::lemma_le_bytes_len(f.flags as nat, 4);
    crate::endian::lemma_le_bytes_len(f.header_size as nat, 2);
    crate::endian::lemma_le_bytes_len(f.program_header_size as nat, 2);
    crate::endian::lemma_le_bytes_len(f.program_header_num as nat, 2);
    crate::endian::lemma_le_bytes_len(f.section_header_size as nat, 2);
    crate::endian::lemma_le_bytes_len(f.section_header_num as nat, 2);
    crate::endian::lemma_le_bytes_len(f.section_header_str_index as nat, 2);
    let b = header_bytes(f);
    assert(b.subrange(0, 4) =~= f.magic_nums);
    assert(b.subrange(9, 16) =~= f.reserved);
    assert(b.subrange(16, 18) =~= le_bytes(f.object_type as nat, 2));
    assert(b.subrange(18, 20) =~= le_bytes(f.machine_type as nat, 2));
    assert(b.subrange(20, 24) =~= le_bytes(f.version2 as nat, 4));
    assert(b.subrange(24, 32) =~= le_bytes(f.entry as nat, 8));
    assert(b.subrange(32, 40) =~= le_bytes(f.program_header_offset as nat, 8));
    assert(b.subrange(40, 48) =~= le_bytes(f.section_header_offset as nat, 8));
    assert(b.subrange(48, 52) =~= le_bytes(f.flags as nat, 4));
    assert(b.subrange(52, 54) =~= le_bytes(f.header_size as nat, 2));
    assert(b.subrange(54, 56) =~= le_bytes(f.program_header_size as nat, 2));
    assert(b.subrange(56, 58) =~= le_bytes(f.program_header_num as nat, 2));
    assert(b.subrange(58, 60) =~= le_bytes(f.section_header_size as nat, 2));
    assert(b.subrange(60, 62) =~= le_bytes(f.section_header_num as nat, 2));
    assert(b.subrange(62, 64) =~= le_bytes(f.section_header_str_index as nat, 2));
}

/// File headers with the same bytes have the same fields: decoding the
/// bytes of a header gives the header back.
pub proof fn lemma_header_round_trip(a: HeaderFields, b: HeaderFields)
    requires
        a.magic_nums.len() == 4,
        a.reserved.len() == 7,
        b.magic_nums.len() == 4,
        b.reserved.len() == 7,
        header_bytes(a) == header_bytes(b),
    ensures
        a == b,
{
    let x = header_bytes(a);
    let y = header_bytes(b);
    lemma_header_fields_at(a);
    lemma_header_fields_at(b);
    lemma_same_u16(x, y, a.object_type, b.object_type, 16);
    lemma_same_u16(x, y, a.machine_type, b.machine_type, 18);
    lemma_same_u32(x, y, a.version2, b.version2, 20);
    lemma_same_u64(x, y, a.entry, b.entry, 24);
    lemma_same_u64(x, y, a.program_header_offset, b.program_header_offset, 32);
    lemma_same_u64(x, y, a.section_header_offset, b.section_header_offset, 40);
    lemma_same_u32(x, y, a.flags, b.flags, 48);
    lemma_same_u16(x, y, a.header_size, b.header_size, 52);
    lemma_same_u16(x, y, a.program_header_size, b.program_header_size, 54);
    lemma_same_u16(x, y, a.program_header_num, b.program_header_num, 56);
    lemma_same_u16(x, y, a.section_header_size, b.section_header_size, 58);
    lemma_same_u16(x, y, a.section_header_num, b.section_header_num, 60);
    lemma_same_u16(x, y, a.section_header_str_index, b.section_header_str_index, 62);
}

/// The header at the start of the file.
#[derive(Debug)]
pub struct Elf64Header {
    magic_nums: [u8; 4],
    class: u8,
    endian: u8,
    version: u8,
    abi: u8,
    abi_version: u8,
    reserved: [u8; 7],
    object_type: [u8; 2],
    machine_type: [u8; 2],
    version2: [u8; 4],
    entry: [u8; 8],
    program_header_offset: [u8; 8],
    section_header_offset: [u8; 8],
    flags: [u8; 4],
    header_size: [u8; 2],
    program_header_size: [u8; 2],
    program_header_num: [u8; 2],
    section_header_size: [u8; 2],
    section_header_num: [u8; 2],
    section_header_str_index: [u8; 2],
}

impl View for Elf64Header {
    type V = HeaderFields;

    closed spec fn view(&self) -> HeaderFields {
        HeaderFields {
            magic_nums: self.magic_nums@,
            class: self.class,
            endian: self.endian,
            version: self.version,
            abi: self.abi,
            abi_version: self.abi_version,
            reserved: self.reserved@,
            object_type: le_value(self.object_type@) as u16,
            machine_type: le_value(self.machine_type@) as u16,
            version2: le_value(self.version2@) as u32,
            entry: le_value(self.entry@) as u64,
            program_header_offset: le_value(self.program_header_offset@) as u64,
            section_header_offset: le_value(self.section_header_offset@) as u64,
            flags: le_value(self.flags@) as u32,
            header_size: le_value(self.header_size@) as u16,
            program_header_size: le_value(self.program_header_size@) as u16,
            program_header_num: le_value(self.program_header_num@) as u16,
            section_header_size: le_value(self.section_header_size@) as u16,
            section_header_num: le_value(self.section_header_num@) as u16,
            section_header_str_index: le_value(self.section_header_str_index@) as u16,
        }
    }
}

impl Elf64Header {
    /// The two byte strings of a header have their fixed lengths.
    pub proof fn lemma_fixed_lengths(&self)
        ensures
            self@.magic_nums.len() == 4,
            self@.reserved.len() == 7,
    {
    }

    /// The header of a relocatable x86-64 object with one section of code.
    pub fn template() -> (header: Self)
        ensures
            header@ == template_header(),
    {
        let header = Self {
            magic_nums: MAGIC_NUMS,
            class: 0x2,
            endian: 0x1,
            version: 0x1,
            abi: 0x0,
            abi_version: 0x0,
            reserved: [0x0; 7],
            object_type: [0x1, 0x0],
            machine_type: [0x3e, 0x0],
            version2: [0x1, 0x0, 0x0, 0x0],
            entry: [0x0; 8],
            program_header_offset: [0x0; 8],
            section_header_offset: [0x40, 0x0, 0x0, 0x0, 0x0, 0x0, 0x0, 0x0],
            flags: [0x0; 4],
            header_size: [0x40, 0x0],
            program_header_size: [0x0, 0x0],
            program_header_num: [0x0, 0x0],
            section_header_size: [0x40, 0x0],
            section_header_num: [0x5, 0x0],
            section_header_str_index: [0x2, 0x0],
        };
        proof {
            reveal_with_fuel(le_value, 9);
            assert(header@.magic_nums =~= template_header().magic_nums);
            assert(header@.reserved =~= template_header().reserved);
        }
        header
    }

    /// The header as it stands in the file: its fields in order, each little-endian.
    pub fn as_u8_slice(&self) -> (bytes: Vec<u8>)
        ensures
            bytes@ == header_bytes(self@),
            bytes@.len() == HEADER_SIZE,
    {
        let mut bytes: Vec<u8> = Vec::new();
        bytes.extend_from_slice(self.magic_nums.as_slice());
        bytes.push(self.class);
        bytes.push(self.endian);
        bytes.push(self.version);
        bytes.push(self.abi);
        bytes.push(self.abi_version);
        bytes.extend_from_slice(self.reserved.as_slice());
        bytes.extend_from_slice(self.object_type.as_slice());
        bytes.extend_from_slice(self.machine_type.as_slice());
        bytes.extend_from_slice(self.version2.as_slice());
        bytes.extend_from_slice(self.entry.as_slice());
        bytes.extend_from_slice(self.program_header_offset.as_slice());
        bytes.extend_from_slice(self.section_header_offset.as_slice());
        bytes.extend_from_slice(self.flags.as_slice());
        bytes.extend_from_slice(self.header_size.as_slice());
        bytes.extend_from_slice(self.program_header_size.as_slice());
        bytes.extend_from_slice(self.program_header_num.as_slice());
        bytes.extend_from_slice(self.section_header_size.as_slice());
        bytes.extend_from_slice(self.section_header_num.as_slice());
        bytes.extend_from_slice(self.section_header_str_index.as_slice());
        proof {
            lemma_u16_field(self.object_type@);
            lemma_u16_field(self.machine_type@);
            lemma_u32_field(self.version2@);
            lemma_u64_field(self.entry@);
            lemma_u64_field(self.program_header_offset@);
            lemma_u64_field(self.section_header_offset@);
            lemma_u32_field(self.flags@);
            lemma_u16_field(self.header_size@);
            lemma_u16_field(self.program_header_size@);
            lemma_u16_field(self.program_header_num@);
            lemma_u16_field(self.section_header_size@);
            lemma_u16_field(self.section_header_num@);
            lemma_u16_field(self.section_header_str_index@);
            lemma_header_bytes_len(self@);
            assert(bytes@ =~= header_bytes(self@));
        }
        bytes
    }

    /// The header that stands in the file as `bytes`, where `bytes` has the
    /// length of a header. The bytes are taken as they are: none is checked.
    pub fn from_u8_slice(bytes: &[u8]) -> (header: Option<Self>)
        ensures
            header is Some <==> bytes@.len() == HEADER_SIZE,
            header matches Some(h) ==> header_bytes(h@) == bytes@,
    {
        if bytes.len() != HEADER_SIZE {
            return None;
        }
        let header = Self {
            magic_nums: four(bytes, 0),
            class: bytes[4],
            endian: bytes[5],
            version: bytes[6],
            abi: bytes[7],
            abi_version: bytes[8],
            reserved: [
                bytes[9],
                bytes[10],
                bytes[11],
                bytes[12],
                bytes[13],
                bytes[14],
                bytes[15],
            ],
            object_type: two(bytes, 16),
            machine_type: two(bytes, 18),
            version2: four(bytes, 20),
            entry: eight(bytes, 24),
            program_header_offset: eight(bytes, 32),
            section_header_offset: eight(bytes, 40),
            flags: four(bytes, 48),
            header_size: two(bytes, 52),
            program_header_size: two(bytes, 54),
            program_header_num: two(bytes, 56),
            section_header_size: two(bytes, 58),
            section_header_num: two(bytes, 60),
            section_header_str_index: two(bytes, 62),
        };
        proof {
            lemma_u16_field(header.object_type@);
            lemma_u16_field(header.machine_type@);
            lemma_u32_field(header.version2@);
            lemma_u64_field(header.entry@);
            lemma_u64_field(header.program_header_offset@);
            lemma_u64_field(header.section_header_offset@);
            lemma_u32_field(header.flags@);
            lemma_u16_field(header.header_size@);
            lemma_u16_field(header.program_header_size@);
            lemma_u16_field(header.program_header_num@);
            lemma_u16_field(header.section_header_size@);
            lemma_u16_field(header.section_header_num@);
            lemma_u16_field(header.section_header_str_index@);
            assert(header_bytes(header@) =~= bytes@);
        }
        Some(header)
    }

    /// The field `section_header_size`.
    pub fn section_header_size(&self) -> (value: u16)
        ensures
            value == self@.section_header_size,
    {
        read_u16(&self.section_header_size)
    }

    /// Sets the field `section_header_size`.
    pub fn set_section_header_size(&mut self, section_header_size: u16)
        ensures
            final(self)@ == (HeaderFields { section_header_size, ..old(self)@ }),
    {
        let mut buf = [0u8; 2];
        write_u16(&mut buf, section_header_size);
        self.section_header_size = buf;
        proof {
            lemma_written_fields(section_header_size, 0, 0);
        }
    }

    /// The field `section_header_num`.
    pub fn section_header_num(&self) -> (value: u16)
        ensures
            value == self@.section_header_num,
    {
        read_u16(&self.section_header_num)
    }

    /// Sets the field `section_header_num`.
    pub fn set_section_header_num(&mut self, section_header_num: u16)
        ensures
            final(self)@ == (HeaderFields { section_header_num, ..old(self)@ }),
    {
        let mut buf = [0u8; 2];
        write_u16(&mut buf, section_header_num);
        self.section_header_num = buf;
        proof {
            lemma_written_fields(section_header_num, 0, 0);
        }
    }

    /// The field `section_header_str_index`.
    pub fn section_header_str_index(&self) -> (value: u16)
        ensures
            value == self@.section_header_str_index,
    {
        read_u16(&self.section_header_str_index)
    }

    /// Sets the field `section_header_str_index`.
    pub fn set_section_header_str_index(&mut self, section_header_str_index: u16)
        ensures
            final(self)@ == (HeaderFields { section_header_str_index, ..old(self)@ }),
    {
        let mut buf = [0u8; 2];
        write_u16(&mut buf, section_header_str_index);
        self.section_header_str_index = buf;
        proof {
            lemma_written_fields(section_header_str_index, 0, 0);
        }
    }
}

proof fn lemma_zero_value(raw: Seq<u8>)
    requires
        forall|i: int| 0 <= i < raw.len() ==> raw[i] == 0,
    ensures
        le_value(raw) == 0,
    decreases raw.len(),
{
    if raw.len() > 0 {
        lemma_zero_value(raw.drop_first());
    }
}

} // verus!
