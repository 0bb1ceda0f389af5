//! The byte image of the object file, as a function of the sections and of
//! the path of the source file.
//!
//! The file is laid out in this order: the file header; the section header
//! table (a null header, one header per section, then `.shstrtab`,
//! `.symtab` and `.strtab`); the code of every section, each padded to a
//! 16-byte boundary; the table of section names, padded; the symbol table;
//! the table of symbol names, padded.

use crate::align::padded;
use crate::elf::{
    header_bytes, null_section_header, null_symbol, section_header_bytes, symbol_bytes,
    symbol_info_spec, template_header, HeaderFields, SectionHeaderFields, SymbolFields,
    HEADER_SIZE, SECTION_HEADER_SIZE, SHF_ALLOC, SHF_EXECINSTR, SHN_ABS, SHT_PROGBITS, SHT_STRTAB,
    SHT_SYMTAB, STB_LOCAL, STT_FILE, STT_NOTYPE, STT_SECTION, SYMBOL_SIZE,
};
use crate::node::SectionNodeView;
use crate::parse::{encode_spec, InstructionView};
use crate::strtab::{name_offset, string_table};
use vstd::prelude::*;
use vstd::utf8::encode_utf8;

verus! {

/// The machine code of `instructions`, one after another.
pub open spec fn instructions_code(instructions: Seq<InstructionView>) -> Seq<u8>
    decreases instructions.len(),
{
    if instructions.len() == 0 {
        Seq::empty()
    } else {
        instructions_code(instructions.drop_last()) + encode_spec(
            instructions.last().opcode,
            instructions.last().operands,
        )
    }
}

/// The machine code of labelled groups, one group after another.
pub open spec fn groups_code(groups: Seq<(Seq<char>, Seq<InstructionView>)>) -> Seq<u8>
    decreases groups.len(),
{
    if groups.len() == 0 {
        Seq::empty()
    } else {
        groups_code(groups.drop_last()) + instructions_code(groups.last().1)
    }
}

/// The machine code of a section: the instructions before its first label,
/// then its labelled groups.
pub open spec fn section_code(section: SectionNodeView) -> Seq<u8> {
    instructions_code(section.default_instructions) + groups_code(section.labeled_instructions)
}

/// The code of all sections, each padded to a 16-byte boundary.
pub open spec fn data_bytes(sections: Seq<SectionNodeView>) -> Seq<u8>
    decreases sections.len(),
{
    if sections.len() == 0 {
        Seq::empty()
    } else {
        data_bytes(sections.drop_last()) + padded(section_code(sections.last()))
    }
}

/// The name of the table of section names.
pub open spec fn shstrtab_name() -> Seq<char> {
    seq!['.', 's', 'h', 's', 't', 'r', 't', 'a', 'b']
}

/// The name of the symbol table.
pub open spec fn symtab_name() -> Seq<char> {
    seq!['.', 's', 'y', 'm', 't', 'a', 'b']
}

/// The name of the table of symbol names.
pub open spec fn strtab_name() -> Seq<char> {
    seq!['.', 's', 't', 'r', 't', 'a', 'b']
}

/// The names of the sections, in order.
pub open spec fn section_names(sections: Seq<SectionNodeView>) -> Seq<Seq<u8>> {
    Seq::new(sections.len(), |i: int| encode_utf8(sections[i].name))
}

/// The names in the table of section names, in the order of the section
/// header table: the sections, then `.shstrtab`, `.symtab` and `.strtab`.
pub open spec fn header_names(sections: Seq<SectionNodeView>) -> Seq<Seq<u8>> {
    section_names(sections) + seq![
        encode_utf8(shstrtab_name()),
        encode_utf8(symtab_name()),
        encode_utf8(strtab_name()),
    ]
}

/// A label of the program: the index of its section in the section header
/// table, and its name.
pub struct LabelRef {
    pub section_index: nat,
    pub name: Seq<char>,
}

/// The labels of one section, which stands at `section_index` in the
/// section header table.
pub open spec fn section_labels(section: SectionNodeView, section_index: nat) -> Seq<LabelRef> {
    Seq::new(
        section.labeled_instructions.len(),
        |k: int| LabelRef { section_index, name: section.labeled_instructions[k].0 },
    )
}

/// The labels of all sections in the order they are emitted: section by
/// section, and within a section group by group.
pub open spec fn labels(sections: Seq<SectionNodeView>) -> Seq<LabelRef>
    decreases sections.len(),
{
    if sections.len() == 0 {
        Seq::empty()
    } else {
        labels(sections.drop_last()) + section_labels(sections.last(), sections.len())
    }
}

/// The names in the table of symbol names: the path of the source file, then
/// the labels.
pub open spec fn symbol_names(path: Seq<char>, labels: Seq<LabelRef>) -> Seq<Seq<u8>> {
    seq![encode_utf8(path)] + Seq::new(labels.len(), |k: int| encode_utf8(labels[k].name))
}

/// The symbol that names the source file. Its name is the first of the table.
pub open spec fn file_symbol() -> SymbolFields {
    SymbolFields {
        name: 1,
        info: symbol_info_spec(STB_LOCAL, STT_FILE),
        other: 0,
        index: SHN_ABS,
        value: 0,
        size: 0,
    }
}

/// The symbol of the section at `section_index` of the section header table.
pub open spec fn section_symbol(section_index: nat) -> SymbolFields {
    SymbolFields {
        name: 0,
        info: symbol_info_spec(STB_LOCAL, STT_SECTION),
        other: 0,
        index: section_index as u16,
        value: 0,
        size: 0,
    }
}

/// The symbol of a label whose name stands at `name` in the table of symbol
/// names and whose section stands at `section_index` in the section header
/// table.
pub open spec fn label_symbol(name: nat, section_index: nat) -> SymbolFields {
    SymbolFields {
        name: name as u32,
        info: symbol_info_spec(STB_LOCAL, STT_NOTYPE),
        other: 0,
        index: section_index as u16,
        value: 0,
        size: 0,
    }
}

/// The symbols of the sections: one per section, in order.
pub open spec fn section_symbols(count: nat) -> Seq<SymbolFields> {
    Seq::new(count, |i: int| section_symbol((i + 1) as nat))
}

/// The symbols of the labels: one per label, in order.
pub open spec fn label_symbols(path: Seq<char>, labels: Seq<LabelRef>) -> Seq<SymbolFields> {
    Seq::new(
        labels.len(),
        |k: int|
            label_symbol(
                name_offset(symbol_names(path, labels), k + 1),
                labels[k].section_index,
            ),
    )
}

/// The symbol table: the null symbol, the file symbol, the section symbols,
/// the label symbols.
pub open spec fn symbols(sections: Seq<SectionNodeView>, path: Seq<char>) -> Seq<SymbolFields> {
    seq![null_symbol(), file_symbol()] + section_symbols(sections.len()) + label_symbols(
        path,
        labels(sections),
    )
}

/// The bytes of symbol-table entries, one after another.
pub open spec fn symbols_bytes(entries: Seq<SymbolFields>) -> Seq<u8>
    decreases entries.len(),
{
    if entries.len() == 0 {
        Seq::empty()
    } else {
        symbols_bytes(entries.drop_last()) + symbol_bytes(entries.last())
    }
}

/// The header of a section of code.
pub open spec fn code_header(name: nat, offset: nat, size: nat) -> SectionHeaderFields {
    SectionHeaderFields {
        name: name as u32,
        s_type: SHT_PROGBITS,
        flags: (SHF_ALLOC + SHF_EXECINSTR) as u64,
        addr: 0,
        offset: offset as u64,
        size: size as u64,
        link: 0,
        info: 0,
        align: 16,
        entry_size: 0,
    }
}

/// The header of a string table.
pub open spec fn strings_header(name: nat, offset: nat, size: nat) -> SectionHeaderFields {
    SectionHeaderFields {
        name: name as u32,
        s_type: SHT_STRTAB,
        flags: 0,
        addr: 0,
        offset: offset as u64,
        size: size as u64,
        link: 0,
        info: 0,
        align: 1,
        entry_size: 0,
    }
}

/// The header of the symbol table. `link` is the index of the table of symbol
/// names, `info` the index of the first symbol that is not local.
pub open spec fn symtab_header(
    name: nat,
    offset: nat,
    size: nat,
    link: nat,
    info: nat,
) -> SectionHeaderFields {
    SectionHeaderFields {
        name: name as u32,
        s_type: SHT_SYMTAB,
        flags: 0,
        addr: 0,
        offset: offset as u64,
        size: size as u64,
        link: link as u32,
        info: info as u32,
        align: 8,
        entry_size: SYMBOL_SIZE as u64,
    }
}

/// The offset in the file at which the code of the sections starts: behind
/// the file header and the section header table.
pub open spec fn data_start(section_count: nat) -> nat {
    HEADER_SIZE as nat + SECTION_HEADER_SIZE as nat * (section_count + 4)
}

/// The offset in the file of the table of section names.
pub open spec fn shstrtab_start(sections: Seq<SectionNodeView>) -> nat {
    data_start(sections.len()) + data_bytes(sections).len()
}

/// The offset in the file of the symbol table.
pub open spec fn symtab_start(sections: Seq<SectionNodeView>) -> nat {
    shstrtab_start(sections) + padded(string_table(header_names(sections))).len()
}

/// The offset in the file of the table of symbol names.
pub open spec fn strtab_start(sections: Seq<SectionNodeView>, path: Seq<char>) -> nat {
    symtab_start(sections) + SYMBOL_SIZE as nat * symbols(sections, path).len()
}

/// The headers of the sections of code, in order. The offset of each is the
/// number of bytes that the file holds before its code.
pub open spec fn code_headers(sections: Seq<SectionNodeView>) -> Seq<SectionHeaderFields> {
    Seq::new(
        sections.len(),
        |i: int|
            code_header(
                name_offset(header_names(sections), i),
                data_start(sections.len()) + data_bytes(sections.take(i)).len(),
                section_code(sections[i]).len(),
            ),
    )
}

/// The section header table.
pub open spec fn section_headers(sections: Seq<SectionNodeView>, path: Seq<char>) -> Seq<
    SectionHeaderFields,
> {
    let count = sections.len() as int;
    let names = header_names(sections);
    seq![null_section_header()] + code_headers(sections) + seq![
        strings_header(
            name_offset(names, count),
            shstrtab_start(sections),
            string_table(names).len(),
        ),
        symtab_header(
            name_offset(names, count + 1),
            symtab_start(sections),
            SYMBOL_SIZE as nat * symbols(sections, path).len(),
            (sections.len() + 3) as nat,
            symbols(sections, path).len(),
        ),
        strings_header(
            name_offset(names, count + 2),
            strtab_start(sections, path),
            string_table(symbol_names(path, labels(sections))).len(),
        ),
    ]
}

/// The bytes of section headers, one after another.
pub open spec fn section_headers_bytes(headers: Seq<SectionHeaderFields>) -> Seq<u8>
    decreases headers.len(),
{
    if headers.len() == 0 {
        Seq::empty()
    } else {
        section_headers_bytes(headers.drop_last()) + section_header_bytes(headers.last())
    }
}

/// The file header of an object with `section_count` sections of code: the
/// section header table holds four entries more, and the table of section
/// names is the first entry behind the sections.
pub open spec fn file_header(section_count: nat) -> HeaderFields {
    HeaderFields {
        section_header_num: (section_count + 4) as u16,
        section_header_str_index: (section_count + 1) as u16,
        ..template_header()
    }
}

/// The object file.
pub open spec fn elf_image(sections: Seq<SectionNodeView>, path: Seq<char>) -> Seq<u8> {
    header_bytes(file_header(sections.len())) + section_headers_bytes(
        section_headers(sections, path),
    ) + data_bytes(sections) + padded(string_table(header_names(sections))) + symbols_bytes(
        symbols(sections, path),
    ) + padded(string_table(symbol_names(path, labels(sections))))
}

/// Whether the object file can be written: the number of section headers
/// fits in 16 bits, the last offset into either string table and the number
/// of symbols fit in 32 bits, and the length of the file fits in `usize`.
pub open spec fn layout_fits(sections: Seq<SectionNodeView>, path: Seq<char>) -> bool {
    let names = header_names(sections);
    let strings = symbol_names(path, labels(sections));
    &&& sections.len() + 4 <= u16::MAX
    &&& name_offset(names, names.len() - 1) <= u32::MAX
    &&& name_offset(strings, strings.len() - 1) <= u32::MAX
    &&& symbols(sections, path).len() <= u32::MAX
    &&& elf_image(sections, path).len() <= usize::MAX
}

/// The position in `labels(sections)` of the first label of the section at
/// position `i`.
pub open spec fn label_position(sections: Seq<SectionNodeView>, i: int) -> nat {
    labels(sections.take(i)).len()
}

/// Labels are emitted section by section and, within a section, in the
/// order of its groups: the label of group `k` of the section at position
/// `i` stands `k` places behind the first label of that section, and names
/// the section by its index in the section header table, `i + 1`.
pub proof fn lemma_label_order(sections: Seq<SectionNodeView>, i: int, k: int)
    requires
        0 <= i < sections.len(),
        0 <= k < sections[i].labeled_instructions.len(),
    ensures
        label_position(sections, i) + k < labels(sections).len(),
        labels(sections)[label_position(sections, i) + k] == (LabelRef {
            section_index: (i + 1) as nat,
            name: sections[i].labeled_instructions[k].0,
        }),
        label_position(sections, i + 1) == label_position(sections, i)
            + sections[i].labeled_instructions.len(),
    decreases sections.len(),
{
    let front = sections.drop_last();
    if i == sections.len() - 1 {
        assert(sections.take(i) =~= front);
        assert(sections.take(i + 1) =~= sections);
    } else {
        lemma_label_order(front, i, k);
        assert(front.take(i) =~= sections.take(i));
        assert(front.take(i + 1) =~= sections.take(i + 1));
    }
}

/// Every label names a section of the program.
pub proof fn lemma_label_sections(sections: Seq<SectionNodeView>, k: int)
    requires
        0 <= k < labels(sections).len(),
    ensures
        1 <= labels(sections)[k].section_index <= sections.len(),
    decreases sections.len(),
{
    if sections.len() > 0 {
        let front = sections.drop_last();
        if k < labels(front).len() {
            lemma_label_sections(front, k);
        }
    }
}

/// The symbol table holds, in this order: the null symbol at index 0; the
/// file symbol at index 1; one section symbol for every section, that of
/// the section at position `i` at index `2 + i`; one symbol for every label
/// in the order the labels are emitted, all of them local and without type.
pub proof fn lemma_symbol_order(sections: Seq<SectionNodeView>, path: Seq<char>)
    ensures
        symbols(sections, path).len() == 2 + sections.len() + labels(sections).len(),
        symbols(sections, path)[0] == null_symbol(),
        symbols(sections, path)[1] == file_symbol(),
        file_symbol().info == STT_FILE,
        forall|i: int|
            0 <= i < sections.len() ==> #[trigger] symbols(sections, path)[2 + i]
                == section_symbol((i + 1) as nat),
        forall|i: nat| (#[trigger] section_symbol(i)).info == STT_SECTION,
        forall|k: int|
            0 <= k < labels(sections).len() ==> #[trigger] symbols(
                sections,
                path,
            )[2 + sections.len() + k] == label_symbol(
                name_offset(symbol_names(path, labels(sections)), k + 1),
                labels(sections)[k].section_index,
            ),
        forall|name: nat, index: nat| (#[trigger] label_symbol(name, index)).info == STT_NOTYPE,
{
    crate::elf::lemma_symbol_info_parts(STB_LOCAL, STT_FILE);
    crate::elf::lemma_symbol_info_parts(STB_LOCAL, STT_SECTION);
    crate::elf::lemma_symbol_info_parts(STB_LOCAL, STT_NOTYPE);
}

/// The code of the sections before any position is a prefix of the code of
/// all sections, and is a multiple of 16 bytes long.
pub proof fn lemma_data_prefix(sections: Seq<SectionNodeView>, i: int)
    requires
        0 <= i <= sections.len(),
    ensures
        data_bytes(sections.take(i)).len() <= data_bytes(sections).len(),
        data_bytes(sections.take(i)).len() % 16 == 0,
        i < sections.len() ==> data_bytes(sections.take(i)).len() + section_code(
            sections[i],
        ).len() <= data_bytes(sections).len(),
    decreases sections.len(),
{
    if sections.len() == 0 {
        assert(sections.take(i) =~= sections);
    } else {
        let front = sections.drop_last();
        crate::align::lemma_padded(section_code(sections.last()));
        lemma_data_prefix(front, front.len() as int);
        assert(front.take(front.len() as int) =~= front);
        if i == sections.len() {
            assert(sections.take(i) =~= sections);
        } else {
            lemma_data_prefix(front, i);
            assert(front.take(i) =~= sections.take(i));
        }
    }
}

/// Where the layout fits, no field is cut short: every number of the file
/// header, of the section header table and of the symbol table is the exact
/// count, size, index or offset that it stands for.
pub proof fn lemma_fields_exact(sections: Seq<SectionNodeView>, path: Seq<char>)
    requires
        layout_fits(sections, path),
    ensures
        file_header(sections.len()).section_header_num == sections.len() + 4,
        file_header(sections.len()).section_header_str_index == sections.len() + 1,
        section_headers(sections, path).len() == sections.len() + 4,
        forall|i: int|
            0 <= i < sections.len() ==> {
                let header = #[trigger] section_headers(sections, path)[1 + i];
                &&& header.name == name_offset(header_names(sections), i)
                &&& header.offset == data_start(sections.len()) + data_bytes(
                    sections.take(i),
                ).len()
                &&& header.size == section_code(sections[i]).len()
                &&& header.offset + header.size <= shstrtab_start(sections)
            },
        ({
            let header = section_headers(sections, path)[sections.len() as int + 1];
            &&& header.name == name_offset(header_names(sections), sections.len() as int)
            &&& header.offset == shstrtab_start(sections)
            &&& header.size == string_table(header_names(sections)).len()
        }),
        ({
            let header = section_headers(sections, path)[sections.len() as int + 2];
            &&& header.name == name_offset(header_names(sections), sections.len() as int + 1)
            &&& header.offset == symtab_start(sections)
            &&& header.size == SYMBOL_SIZE * symbols(sections, path).len()
            &&& header.link == sections.len() + 3
            &&& header.info == symbols(sections, path).len()
        }),
        ({
            let header = section_headers(sections, path)[sections.len() as int + 3];
            &&& header.name == name_offset(header_names(sections), sections.len() as int + 2)
            &&& header.offset == strtab_start(sections, path)
            &&& header.size == string_table(symbol_names(path, labels(sections))).len()
            &&& header.offset + header.size <= elf_image(sections, path).len()
        }),
        forall|i: int|
            0 <= i < sections.len() ==> (#[trigger] section_symbols(sections.len())[i]).index == i
                + 1,
        forall|k: int|
            0 <= k < labels(sections).len() ==> {
                let symbol = #[trigger] label_symbols(path, labels(sections))[k];
                &&& symbol.name == name_offset(symbol_names(path, labels(sections)), k + 1)
                &&& symbol.index == labels(sections)[k].section_index
            },
{
    let count = sections.len() as int;
    let names = header_names(sections);
    let strings = symbol_names(path, labels(sections));
    let headers = section_headers(sections, path);
    lemma_image_size(sections, path);
    crate::align::lemma_padded(string_table(names));
    crate::align::lemma_padded(string_table(strings));
    assert forall|i: int| 0 <= i < count implies {
        let header = #[trigger] headers[1 + i];
        &&& header.name == name_offset(names, i)
        &&& header.offset == data_start(sections.len()) + data_bytes(sections.take(i)).len()
        &&& header.size == section_code(sections[i]).len()
        &&& header.offset + header.size <= shstrtab_start(sections)
    } by {
        crate::strtab::lemma_name_offset_monotonic(names, i, count + 2);
        lemma_data_prefix(sections, i);
        assert(headers[1 + i] == code_headers(sections)[i]);
    }
    crate::strtab::lemma_name_offset_monotonic(names, count, count + 2);
    crate::strtab::lemma_name_offset_monotonic(names, count + 1, count + 2);
    assert forall|k: int| 0 <= k < labels(sections).len() implies {
        let symbol = #[trigger] label_symbols(path, labels(sections))[k];
        &&& symbol.name == name_offset(strings, k + 1)
        &&& symbol.index == labels(sections)[k].section_index
    } by {
        crate::strtab::lemma_name_offset_monotonic(strings, k + 1, strings.len() - 1);
        lemma_label_sections(sections, k);
    }
}

/// The size of the object file and of its two tables of records.
pub proof fn lemma_image_size(sections: Seq<SectionNodeView>, path: Seq<char>)
    ensures
        section_headers(sections, path).len() == sections.len() + 4,
        section_headers_bytes(section_headers(sections, path)).len() == SECTION_HEADER_SIZE * (
        sections.len() + 4),
        symbols_bytes(symbols(sections, path)).len() == SYMBOL_SIZE * symbols(
            sections,
            path,
        ).len(),
        elf_image(sections, path).len() == strtab_start(sections, path) + padded(
            string_table(symbol_names(path, labels(sections))),
        ).len(),
{
    let headers = section_headers(sections, path);
    crate::elf::lemma_header_bytes_len(file_header(sections.len()));
    lemma_section_headers_size(headers);
    lemma_symbols_size(symbols(sections, path));
    assert(SECTION_HEADER_SIZE * headers.len() == SECTION_HEADER_SIZE * (sections.len() + 4))
        by (nonlinear_arith)
        requires
            headers.len() == sections.len() + 4,
    ;
}

/// Section headers take `SECTION_HEADER_SIZE` bytes each.
pub proof fn lemma_section_headers_size(headers: Seq<SectionHeaderFields>)
    ensures
        section_headers_bytes(headers).len() == SECTION_HEADER_SIZE * headers.len(),
    decreases headers.len(),
{
    if headers.len() > 0 {
        lemma_section_headers_size(headers.drop_last());
        crate::elf::lemma_section_header_bytes_len(headers.last());
    }
}

/// Symbol-table entries take `SYMBOL_SIZE` bytes each.
pub proof fn lemma_symbols_size(entries: Seq<SymbolFields>)
    ensures
        symbols_bytes(entries).len() == SYMBOL_SIZE * entries.len(),
    decreases entries.len(),
{
    if entries.len() > 0 {
        lemma_symbols_size(entries.drop_last());
        crate::elf::lemma_symbol_bytes_len(entries.last());
    }
}

/// Every name of either string table that holds no NUL byte is read back
/// from the table at the offset that the headers and symbols record for it.
pub proof fn lemma_names_recoverable(sections: Seq<SectionNodeView>, path: Seq<char>)
    ensures
        forall|i: int|
            0 <= i < header_names(sections).len() && !(#[trigger] header_names(
                sections,
            )[i]).contains(0u8) ==> crate::strtab::string_at(
                string_table(header_names(sections)),
                name_offset(header_names(sections), i) as int,
            ) == Some(header_names(sections)[i]),
        forall|k: int|
            0 <= k < symbol_names(path, labels(sections)).len() && !(#[trigger] symbol_names(
                path,
                labels(sections),
            )[k]).contains(0u8) ==> crate::strtab::string_at(
                string_table(symbol_names(path, labels(sections))),
                name_offset(symbol_names(path, labels(sections)), k) as int,
            ) == Some(symbol_names(path, labels(sections))[k]),
{
    let names = header_names(sections);
    let strings = symbol_names(path, labels(sections));
    assert forall|i: int| 0 <= i < names.len() && !(#[trigger] names[i]).contains(
        0u8,
    ) implies crate::strtab::string_at(string_table(names), name_offset(names, i) as int)
        == Some(names[i]) by {
        crate::strtab::lemma_name_round_trip(names, i);
    }
    assert forall|k: int| 0 <= k < strings.len() && !(#[trigger] strings[k]).contains(
        0u8,
    ) implies crate::strtab::string_at(string_table(strings), name_offset(strings, k) as int)
        == Some(strings[k]) by {
        crate::strtab::lemma_name_round_trip(strings, k);
    }
}

/// The `size` bytes of `bytes` that start at `offset`.
pub open spec fn part(bytes: Seq<u8>, offset: nat, size: nat) -> Seq<u8> {
    bytes.subrange(offset as int, (offset + size) as int)
}

/// The code of every section stands, without its padding, where the code
/// of the sections before it ends.
pub proof fn lemma_data_holds_code(sections: Seq<SectionNodeView>, i: int)
    requires
        0 <= i < sections.len(),
    ensures
        data_bytes(sections.take(i)).len() + section_code(sections[i]).len() <= data_bytes(
            sections,
        ).len(),
        part(
            data_bytes(sections),
            data_bytes(sections.take(i)).len(),
            section_code(sections[i]).len(),
        ) == section_code(sections[i]),
    decreases sections.len(),
{
    let front = sections.drop_last();
    let start = data_bytes(sections.take(i)).len();
    let code = section_code(sections[i]);
    lemma_data_prefix(sections, i);
    if i == sections.len() - 1 {
        assert(sections.take(i) =~= front);
        assert(part(data_bytes(sections), start, code.len()) =~= code);
    } else {
        lemma_data_holds_code(front, i);
        assert(front.take(i) =~= sections.take(i));
        assert(part(data_bytes(sections), start, code.len()) =~= part(
            data_bytes(front),
            start,
            code.len(),
        ));
    }
}

/// Every part of the object file stands at the offset, and has the size,
/// that the headers record for it: the file header at 0, the section header
/// table behind it, the code of every section at the offset of its header,
/// and the two string tables and the symbol table at theirs.
pub proof fn lemma_image_parts(sections: Seq<SectionNodeView>, path: Seq<char>)
    ensures
        part(elf_image(sections, path), 0, HEADER_SIZE as nat) == header_bytes(
            file_header(sections.len()),
        ),
        part(
            elf_image(sections, path),
            HEADER_SIZE as nat,
            SECTION_HEADER_SIZE as nat * (sections.len() + 4),
        ) == section_headers_bytes(section_headers(sections, path)),
        forall|i: int|
            0 <= i < sections.len() ==> part(
                elf_image(sections, path),
                data_start(sections.len()) + data_bytes(#[trigger] sections.take(i)).len(),
                section_code(sections[i]).len(),
            ) == section_code(sections[i]),
        part(
            elf_image(sections, path),
            shstrtab_start(sections),
            string_table(header_names(sections)).len(),
        ) == string_table(header_names(sections)),
        part(
            elf_image(sections, path),
            symtab_start(sections),
            SYMBOL_SIZE as nat * symbols(sections, path).len(),
        ) == symbols_bytes(symbols(sections, path)),
        part(
            elf_image(sections, path),
            strtab_start(sections, path),
            string_table(symbol_names(path, labels(sections))).len(),
        ) == string_table(symbol_names(path, labels(sections))),
{
    let image = elf_image(sections, path);
    let count = sections.len();
    let header = header_bytes(file_header(count));
    let table = section_headers_bytes(section_headers(sections, path));
    let data = data_bytes(sections);
    let names = string_table(header_names(sections));
    let entries = symbols_bytes(symbols(sections, path));
    let strings = string_table(symbol_names(path, labels(sections)));
    lemma_image_size(sections, path);
    crate::elf::lemma_header_bytes_len(file_header(count));
    crate::align::lemma_padded(names);
    crate::align::lemma_padded(strings);
    assert(part(image, 0, HEADER_SIZE as nat) =~= header);
    assert(part(image, HEADER_SIZE as nat, SECTION_HEADER_SIZE as nat * (count + 4)) =~= table);
    assert(part(image, shstrtab_start(sections), names.len()) =~= names);
    assert(part(image, symtab_start(sections), SYMBOL_SIZE as nat * symbols(sections, path).len())
        =~= entries);
    assert(part(image, strtab_start(sections, path), strings.len()) =~= strings);
    assert forall|i: int| 0 <= i < count implies part(
        image,
        data_start(count) + data_bytes(#[trigger] sections.take(i)).len(),
        section_code(sections[i]).len(),
    ) == section_code(sections[i]) by {
        lemma_data_holds_code(sections, i);
        let start = data_bytes(sections.take(i)).len();
        let len = section_code(sections[i]).len();
        assert(part(image, data_start(count) + start, len) =~= part(data, start, len));
    }
}

} // verus!
