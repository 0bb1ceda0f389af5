//! Writing the object file: every part of the layout is written by a
//! function of its own, and `write_elf` puts the parts together.

use crate::align::pad16;
use crate::elf::{
    Elf64Header, Elf64SectionHeader, Elf64SymbolTableSection, HEADER_SIZE, null_section_header,
    null_symbol, section_header_bytes, SECTION_HEADER_SIZE, SectionHeaderFields, SHF_ALLOC,
    SHF_EXECINSTR, SHN_ABS, SHT_PROGBITS, SHT_STRTAB, SHT_SYMTAB, STB_LOCAL, STT_FILE, STT_NOTYPE,
    STT_SECTION, symbol_bytes, symbol_info, SYMBOL_SIZE, SymbolFields,
};
use crate::layout::{
    code_headers, data_bytes, data_start, elf_image, file_header, file_symbol, groups_code,
    header_names, instructions_code, label_symbol, label_symbols, LabelRef, labels, layout_fits,
    lemma_image_size, section_code, section_headers, section_headers_bytes, section_labels,
    section_names, section_symbol, section_symbols, shstrtab_name, shstrtab_start, strings_header,
    strtab_name, strtab_start, symbol_names, symbols, symbols_bytes, symtab_name, symtab_start,
};
use crate::node::{groups_view, instructions_view, SectionNode, SectionNodeView, sections_view};
use crate::parse::{encode, Instruction};
use crate::strtab::{name_offset, string_table, StringTable};
use vstd::prelude::*;
use vstd::utf8::encode_utf8;

verus! {

fn append_code(instructions: &Vec<Instruction>, code: &mut Vec<u8>)
    ensures
        final(code)@ == old(code)@ + instructions_code(instructions_view(instructions@)),
{
    let ghost all = instructions_view(instructions@);
    let mut i: usize = 0;
    assert(all.take(0) =~= Seq::empty());
    while i < instructions.len()
        invariant
            i <= instructions.len(),
            all == instructions_view(instructions@),
            code@ == old(code)@ + instructions_code(all.take(i as int)),
        decreases instructions.len() - i,
    {
        let ins = &instructions[i];
        let bytes = encode(&ins.opcode, &ins.operands);
        code.extend_from_slice(bytes.as_slice());
        proof {
            assert(all.take(i + 1).drop_last() =~= all.take(i as int));
            assert(all.take(i + 1).last() == ins@);
            assert(code@ =~= old(code)@ + instructions_code(all.take(i + 1)));
        }
        i += 1;
    }
    assert(all.take(i as int) =~= all);
}

/// The machine code of a section: the instructions before its first label,
/// then its labelled groups.
pub fn encode_section(section_node: &SectionNode) -> (code: Vec<u8>)
    ensures
        code@ == section_code(section_node@),
{
    let mut code: Vec<u8> = Vec::new();
    append_code(&section_node.default_instructions, &mut code);
    let ghost head = code@;
    let ghost groups = groups_view(section_node.labeled_instructions@);
    let mut k: usize = 0;
    assert(groups.take(0) =~= Seq::empty());
    while k < section_node.labeled_instructions.len()
        invariant
            k <= section_node.labeled_instructions.len(),
            groups == groups_view(section_node.labeled_instructions@),
            code@ == head + groups_code(groups.take(k as int)),
        decreases section_node.labeled_instructions.len() - k,
    {
        let group = &section_node.labeled_instructions[k];
        append_code(&group.1, &mut code);
        proof {
            assert(groups.take(k + 1).drop_last() =~= groups.take(k as int));
            assert(groups.take(k + 1).last() == groups[k as int]);
            assert(code@ =~= head + groups_code(groups.take(k + 1)));
        }
        k += 1;
    }
    assert(groups.take(k as int) =~= groups);
    code
}

/// Where the code of one section lies within the code of all sections, and
/// how long it is without its padding.
pub struct Extent {
    pub offset: usize,
    pub size: usize,
}

/// The extents that the code of `sections` has.
pub open spec fn extents_of(sections: Seq<SectionNodeView>, extents: Seq<Extent>) -> bool {
    &&& extents.len() == sections.len()
    &&& forall|i: int|
        0 <= i < sections.len() ==> {
            &&& (#[trigger] extents[i]).offset == data_bytes(sections.take(i)).len()
            &&& extents[i].size == section_code(sections[i]).len()
            &&& extents[i].offset <= data_bytes(sections).len()
        }
}

/// The code of all sections, each padded to a 16-byte boundary, and the
/// extent of each.
pub fn write_data(sections: &Vec<SectionNode>) -> (out: (Vec<u8>, Vec<Extent>))
    ensures
        out.0@ == data_bytes(sections_view(sections@)),
        extents_of(sections_view(sections@), out.1@),
{
    let ghost all = sections_view(sections@);
    let mut data: Vec<u8> = Vec::new();
    let mut extents: Vec<Extent> = Vec::new();
    let mut i: usize = 0;
    assert(all.take(0) =~= Seq::empty());
    while i < sections.len()
        invariant
            i <= sections.len(),
            all == sections_view(sections@),
            data@ == data_bytes(all.take(i as int)),
            extents@.len() == i,
            forall|j: int|
                0 <= j < i ==> {
                    &&& (#[trigger] extents@[j]).offset == data_bytes(all.take(j)).len()
                    &&& extents@[j].size == section_code(all[j]).len()
                    &&& extents@[j].offset <= data@.len()
                },
        decreases sections.len() - i,
    {
        let mut code = encode_section(&sections[i]);
        extents.push(Extent { offset: data.len(), size: code.len() });
        pad16(&mut code);
        data.extend_from_slice(code.as_slice());
        proof {
            assert(all.take(i + 1).drop_last() =~= all.take(i as int));
            assert(all.take(i + 1).last() == all[i as int]);
            assert(data@ =~= data_bytes(all.take(i + 1)));
        }
        i += 1;
    }
    assert(all.take(i as int) =~= all);
    (data, extents)
}

/// The table of section names, and the offset of every name in it.
pub fn write_header_names(sections: &Vec<SectionNode>) -> (out: (Vec<u8>, Vec<usize>))
    ensures
        out.0@ == string_table(header_names(sections_view(sections@))),
        out.1@.len() == sections@.len() + 3,
        forall|i: int|
            0 <= i < out.1@.len() ==> #[trigger] out.1@[i] == name_offset(
                header_names(sections_view(sections@)),
                i,
            ),
{
    let ghost all = sections_view(sections@);
    let ghost names = header_names(all);
    let mut table = StringTable::new();
    let mut offsets: Vec<usize> = Vec::new();
    let mut i: usize = 0;
    assert(names.take(0) =~= Seq::empty());
    while i < sections.len()
        invariant
            i <= sections.len(),
            all == sections_view(sections@),
            names == header_names(all),
            table.wf(),
            table@ == names.take(i as int),
            offsets@.len() == i,
            forall|j: int| 0 <= j < i ==> #[trigger] offsets@[j] == name_offset(names, j),
        decreases sections.len() - i,
    {
        let offset = table.append(sections[i].name.as_str().as_bytes());
        offsets.push(offset);
        proof {
            assert(names[i as int] == encode_utf8(all[i as int].name));
            assert(names.take(i + 1) =~= names.take(i as int).push(names[i as int]));
        }
        i += 1;
    }
    let ghost count = sections@.len() as int;
    let offset = table.append(".shstrtab".as_bytes());
    offsets.push(offset);
    let offset = table.append(".symtab".as_bytes());
    offsets.push(offset);
    let offset = table.append(".strtab".as_bytes());
    offsets.push(offset);
    proof {
        reveal_strlit(".shstrtab");
        reveal_strlit(".symtab");
        reveal_strlit(".strtab");
        assert(".shstrtab"@ =~= shstrtab_name());
        assert(".symtab"@ =~= symtab_name());
        assert(".strtab"@ =~= strtab_name());
        assert(names.take(count + 1) =~= names.take(count).push(names[count]));
        assert(names.take(count + 2) =~= names.take(count + 1).push(names[count + 1]));
        assert(names.take(count + 3) =~= names.take(count + 2).push(names[count + 2]));
        assert(names.take(count + 3) =~= names);
    }
    (table.into_bytes(), offsets)
}

proof fn lemma_symbols_bytes_push(entries: Seq<SymbolFields>, entry: SymbolFields)
    ensures
        symbols_bytes(entries.push(entry)) == symbols_bytes(entries) + symbol_bytes(entry),
        symbols_bytes(entries).len() == SYMBOL_SIZE * entries.len(),
    decreases entries.len(),
{
    assert(entries.push(entry).drop_last() =~= entries);
    if entries.len() > 0 {
        lemma_symbols_bytes_push(entries.drop_last(), entries.last());
        assert(entries.drop_last().push(entries.last()) =~= entries);
        crate::elf::lemma_symbol_bytes_len(entries.last());
    }
}

proof fn lemma_label_symbols_push(path: Seq<char>, refs: Seq<LabelRef>, label: LabelRef)
    ensures
        symbol_names(path, refs.push(label)) == symbol_names(path, refs).push(
            encode_utf8(label.name),
        ),
        label_symbols(path, refs.push(label)) == label_symbols(path, refs).push(
            label_symbol(string_table(symbol_names(path, refs)).len(), label.section_index),
        ),
{
    let grown = refs.push(label);
    let names = symbol_names(path, refs);
    let more = symbol_names(path, grown);
    assert(more =~= names.push(encode_utf8(label.name)));
    assert(more.take(names.len() as int) =~= names);
    assert forall|k: int| 0 <= k < grown.len() implies label_symbols(path, grown)[k]
        == label_symbols(path, refs).push(
        label_symbol(string_table(names).len(), label.section_index),
    )[k] by {
        if k < refs.len() {
            assert(more.take(k + 1) =~= names.take(k + 1));
        }
    }
    assert(label_symbols(path, grown) =~= label_symbols(path, refs).push(
        label_symbol(string_table(names).len(), label.section_index),
    ));
}

/// The symbol table and the table of symbol names, and the offset of the
/// last name in the latter.
pub fn write_symbols(sections: &Vec<SectionNode>, source_path: &str) -> (out: (
    Vec<u8>,
    Vec<u8>,
    usize,
))
    ensures
        out.0@ == symbols_bytes(symbols(sections_view(sections@), source_path@)),
        out.1@ == string_table(symbol_names(source_path@, labels(sections_view(sections@)))),
        out.2 == name_offset(
            symbol_names(source_path@, labels(sections_view(sections@))),
            labels(sections_view(sections@)).len() as int,
        ),
{
    let ghost all = sections_view(sections@);
    let ghost path = source_path@;
    let mut symbol_table: Vec<u8> = Vec::new();
    let mut string_table = StringTable::new();

    let null = Elf64SymbolTableSection::default();
    symbol_table.extend_from_slice(null.as_u8_slice().as_slice());
    let file = Elf64SymbolTableSection::new(1, symbol_info(STB_LOCAL, STT_FILE), 0, SHN_ABS, 0, 0);
    symbol_table.extend_from_slice(file.as_u8_slice().as_slice());
    let mut last_offset = string_table.append(source_path.as_bytes());
    let ghost mut entries = seq![null@, file@];
    proof {
        lemma_symbols_bytes_push(Seq::empty(), null@);
        lemma_symbols_bytes_push(seq![null@], file@);
        assert(seq![null@].push(file@) =~= entries);
        assert(Seq::<SymbolFields>::empty().push(null@) =~= seq![null@]);
        assert(symbol_table@ =~= symbols_bytes(entries));
        assert(entries =~= seq![null_symbol(), file_symbol()] + section_symbols(0));
        assert(string_table@ =~= symbol_names(path, Seq::empty()));
        assert(symbol_names(path, Seq::empty()).take(0) =~= Seq::empty());
    }

    let mut i: usize = 0;
    while i < sections.len()
        invariant
            i <= sections.len(),
            symbol_table@ == symbols_bytes(
                seq![null_symbol(), file_symbol()] + section_symbols(i as nat),
            ),
        decreases sections.len() - i,
    {
        let section = Elf64SymbolTableSection::new(
            0,
            symbol_info(STB_LOCAL, STT_SECTION),
            0,
            #[verifier::truncate]
            ((i + 1) as u16),
            0,
            0,
        );
        symbol_table.extend_from_slice(section.as_u8_slice().as_slice());
        proof {
            let before = seq![null_symbol(), file_symbol()] + section_symbols(i as nat);
            lemma_symbols_bytes_push(before, section@);
            assert(section@ == section_symbol((i + 1) as nat));
            assert(before.push(section@) =~= seq![null_symbol(), file_symbol()] + section_symbols(
                (i + 1) as nat,
            ));
        }
        i += 1;
    }

    let ghost fixed = seq![null_symbol(), file_symbol()] + section_symbols(sections@.len());
    let ghost mut refs: Seq<LabelRef> = Seq::empty();
    proof {
        assert(all.take(0) =~= Seq::empty());
        assert(label_symbols(path, refs) =~= Seq::empty());
        assert(fixed + label_symbols(path, refs) =~= fixed);
    }
    let mut i: usize = 0;
    while i < sections.len()
        invariant
            i <= sections.len(),
            all == sections_view(sections@),
            path == source_path@,
            fixed == seq![null_symbol(), file_symbol()] + section_symbols(sections@.len()),
            refs == labels(all.take(i as int)),
            string_table.wf(),
            string_table@ == symbol_names(path, refs),
            symbol_table@ == symbols_bytes(fixed + label_symbols(path, refs)),
            last_offset == name_offset(symbol_names(path, refs), refs.len() as int),
        decreases sections.len() - i,
    {
        let section_node = &sections[i];
        let ghost here = section_labels(all[i as int], (i + 1) as nat);
        let ghost done = refs;
        let mut k: usize = 0;
        proof {
            assert(here.take(0) =~= Seq::empty());
            assert(done + here.take(0) =~= done);
        }
        while k < section_node.labeled_instructions.len()
            invariant
                k <= section_node.labeled_instructions.len(),
                i < sections.len(),
                all == sections_view(sections@),
                section_node == sections@[i as int],
                path == source_path@,
                here == section_labels(all[i as int], (i + 1) as nat),
                fixed == seq![null_symbol(), file_symbol()] + section_symbols(sections@.len()),
                refs == done + here.take(k as int),
                string_table.wf(),
                string_table@ == symbol_names(path, refs),
                symbol_table@ == symbols_bytes(fixed + label_symbols(path, refs)),
                last_offset == name_offset(symbol_names(path, refs), refs.len() as int),
            decreases section_node.labeled_instructions.len() - k,
        {
            let label = &section_node.labeled_instructions[k].0;
            let ghost label_ref = LabelRef { section_index: (i + 1) as nat, name: label@ };
            let offset = string_table.append(label.as_str().as_bytes());
            let entry = Elf64SymbolTableSection::new(
                #[verifier::truncate]
                (offset as u32),
                symbol_info(STB_LOCAL, STT_NOTYPE),
                0,
                #[verifier::truncate]
                ((i + 1) as u16),
                0,
                0,
            );
            symbol_table.extend_from_slice(entry.as_u8_slice().as_slice());
            last_offset = offset;
            proof {
                lemma_label_symbols_push(path, refs, label_ref);
                lemma_symbols_bytes_push(fixed + label_symbols(path, refs), entry@);
                assert(entry@ == label_symbol(offset as nat, (i + 1) as nat));
                assert(here[k as int] == label_ref);
                assert(here.take(k + 1) =~= here.take(k as int).push(label_ref));
                assert(done + here.take(k + 1) =~= refs.push(label_ref));
                assert((fixed + label_symbols(path, refs)).push(entry@) =~= fixed + label_symbols(
                    path,
                    refs.push(label_ref),
                ));
                let grown = symbol_names(path, refs.push(label_ref));
                assert(grown.take(refs.len() as int + 1) =~= symbol_names(path, refs));
                refs = refs.push(label_ref);
            }
            k += 1;
        }
        proof {
            assert(here.take(k as int) =~= here);
            assert(all.take(i + 1).drop_last() =~= all.take(i as int));
            assert(all.take(i + 1).last() == all[i as int]);
            assert(all.take(i + 1).len() == i + 1);
        }
        i += 1;
    }
    proof {
        assert(all.take(i as int) =~= all);
        assert(symbols(all, path) =~= fixed + label_symbols(path, refs));
    }
    (symbol_table, string_table.into_bytes(), last_offset)
}

proof fn lemma_section_headers_bytes_push(
    headers: Seq<SectionHeaderFields>,
    header: SectionHeaderFields,
)
    ensures
        section_headers_bytes(headers.push(header)) == section_headers_bytes(headers)
            + section_header_bytes(header),
        section_headers_bytes(headers).len() == SECTION_HEADER_SIZE * headers.len(),
    decreases headers.len(),
{
    assert(headers.push(header).drop_last() =~= headers);
    if headers.len() > 0 {
        lemma_section_headers_bytes_push(headers.drop_last(), headers.last());
        assert(headers.drop_last().push(headers.last()) =~= headers);
        crate::elf::lemma_section_header_bytes_len(headers.last());
    }
}

fn write_section_headers(
    Ghost(all): Ghost<Seq<SectionNodeView>>,
    Ghost(path): Ghost<Seq<char>>,
    extents: &Vec<Extent>,
    name_offsets: &Vec<usize>,
    data_offset: usize,
    names_offset: usize,
    names_size: usize,
    symbols_offset: usize,
    symbols_size: usize,
    symbol_count: usize,
    strings_offset: usize,
    strings_size: usize,
) -> (table: Vec<u8>)
    requires
        all.len() + 4 <= u16::MAX,
        extents_of(all, extents@),
        name_offsets@.len() == all.len() + 3,
        forall|i: int|
            0 <= i < name_offsets@.len() ==> #[trigger] name_offsets@[i] == name_offset(
                header_names(all),
                i,
            ),
        data_offset == data_start(all.len()),
        data_offset + data_bytes(all).len() <= usize::MAX,
        names_offset == shstrtab_start(all),
        names_size == string_table(header_names(all)).len(),
        symbols_offset == symtab_start(all),
        symbols_size == SYMBOL_SIZE * symbols(all, path).len(),
        symbol_count == symbols(all, path).len(),
        strings_offset == strtab_start(all, path),
        strings_size == string_table(symbol_names(path, labels(all))).len(),
    ensures
        table@ == section_headers_bytes(section_headers(all, path)),
{
    let count = extents.len();
    let ghost names = header_names(all);
    let mut table: Vec<u8> = Vec::new();
    let null = Elf64SectionHeader::default();
    table.extend_from_slice(null.as_u8_slice().as_slice());
    proof {
        lemma_section_headers_bytes_push(Seq::empty(), null@);
        assert(Seq::<SectionHeaderFields>::empty().push(null@) =~= seq![null_section_header()]);
        assert(code_headers(all).take(0) =~= Seq::empty());
        assert(seq![null_section_header()] + code_headers(all).take(0) =~= seq![
            null_section_header(),
        ]);
    }
    let mut i: usize = 0;
    while i < count
        invariant
            i <= count == all.len(),
            extents_of(all, extents@),
            name_offsets@.len() == all.len() + 3,
            forall|j: int|
                0 <= j < name_offsets@.len() ==> #[trigger] name_offsets@[j] == name_offset(
                    header_names(all),
                    j,
                ),
            data_offset == data_start(all.len()),
            data_offset + data_bytes(all).len() <= usize::MAX,
            table@ == section_headers_bytes(
                seq![null_section_header()] + code_headers(all).take(i as int),
            ),
        decreases count - i,
    {
        let extent = &extents[i];
        let header = Elf64SectionHeader::new(
            #[verifier::truncate]
            (name_offsets[i] as u32),
            SHT_PROGBITS,
            SHF_ALLOC + SHF_EXECINSTR,
            0,
            (data_offset + extent.offset) as u64,
            extent.size as u64,
            0,
            0,
            16,
            0,
        );
        table.extend_from_slice(header.as_u8_slice().as_slice());
        proof {
            let before = seq![null_section_header()] + code_headers(all).take(i as int);
            lemma_section_headers_bytes_push(before, header@);
            assert(header@ == code_headers(all)[i as int]);
            assert(before.push(header@) =~= seq![null_section_header()] + code_headers(all).take(
                i + 1,
            ));
        }
        i += 1;
    }
    let names_header = Elf64SectionHeader::new(
        #[verifier::truncate]
        (name_offsets[count] as u32),
        SHT_STRTAB,
        0,
        0,
        names_offset as u64,
        names_size as u64,
        0,
        0,
        1,
        0,
    );
    let symbols_header = Elf64SectionHeader::new(
        #[verifier::truncate]
        (name_offsets[count + 1] as u32),
        SHT_SYMTAB,
        0,
        0,
        symbols_offset as u64,
        symbols_size as u64,
        (count + 3) as u32,
        #[verifier::truncate]
        (symbol_count as u32),
        8,
        SYMBOL_SIZE as u64,
    );
    let strings_header = Elf64SectionHeader::new(
        #[verifier::truncate]
        (name_offsets[count + 2] as u32),
        SHT_STRTAB,
        0,
        0,
        strings_offset as u64,
        strings_size as u64,
        0,
        0,
        1,
        0,
    );
    table.extend_from_slice(names_header.as_u8_slice().as_slice());
    table.extend_from_slice(symbols_header.as_u8_slice().as_slice());
    table.extend_from_slice(strings_header.as_u8_slice().as_slice());
    proof {
        let first = seq![null_section_header()] + code_headers(all);
        assert(code_headers(all).take(count as int) =~= code_headers(all));
        lemma_section_headers_bytes_push(first, names_header@);
        lemma_section_headers_bytes_push(first.push(names_header@), symbols_header@);
        lemma_section_headers_bytes_push(
            first.push(names_header@).push(symbols_header@),
            strings_header@,
        );
        assert(first.push(names_header@).push(symbols_header@).push(strings_header@)
            =~= section_headers(all, path));
    }
    table
}

/// Writes the object file of `sections`, assembled from the source file at
/// `source_path`.
///
/// The result is the whole file, or `None` where a number of the layout
/// does not fit the field or the buffer that must hold it.
pub fn write_elf(sections: &Vec<SectionNode>, source_path: &str) -> (result: Option<Vec<u8>>)
    ensures
        result is Some <==> layout_fits(sections_view(sections@), source_path@),
        result matches Some(bytes) ==> bytes@ == elf_image(
            sections_view(sections@),
            source_path@,
        ),
{
    let ghost all = sections_view(sections@);
    let ghost path = source_path@;
    let count = sections.len();
    if count > 0xffff - 4 {
        return None;
    }
    let (data, extents) = write_data(sections);
    let (mut name_table, name_offsets) = write_header_names(sections);
    let (symbol_table, mut string_table_bytes, last_name) = write_symbols(sections, source_path);
    let names_size = name_table.len();
    let strings_size = string_table_bytes.len();
    pad16(&mut name_table);
    pad16(&mut string_table_bytes);
    let symbol_count = symbol_table.len() / SYMBOL_SIZE;
    proof {
        lemma_image_size(all, path);
        assert(header_names(all).len() - 1 == count + 2);
        assert(symbol_names(path, labels(all)).len() - 1 == labels(all).len());
    }
    if name_offsets[count + 2] > 0xffff_ffff || last_name > 0xffff_ffff || symbol_count
        > 0xffff_ffff {
        return None;
    }
    let data_offset: usize = HEADER_SIZE + SECTION_HEADER_SIZE * (count + 4);
    let names_offset = match data_offset.checked_add(data.len()) {
        Some(offset) => offset,
        None => {
            return None;
        },
    };
    let symbols_offset = match names_offset.checked_add(name_table.len()) {
        Some(offset) => offset,
        None => {
            return None;
        },
    };
    let strings_offset = match symbols_offset.checked_add(symbol_table.len()) {
        Some(offset) => offset,
        None => {
            return None;
        },
    };
    if strings_offset.checked_add(string_table_bytes.len()).is_none() {
        return None;
    }
    let mut header = Elf64Header::template();
    header.set_section_header_num((count + 4) as u16);
    header.set_section_header_str_index((count + 1) as u16);
    let table = write_section_headers(
        Ghost(all),
        Ghost(path),
        &extents,
        &name_offsets,
        data_offset,
        names_offset,
        names_size,
        symbols_offset,
        symbol_table.len(),
        symbol_count,
        strings_offset,
        strings_size,
    );
    let mut bytes = header.as_u8_slice();
    bytes.extend_from_slice(table.as_slice());
    bytes.extend_from_slice(data.as_slice());
    bytes.extend_from_slice(name_table.as_slice());
    bytes.extend_from_slice(symbol_table.as_slice());
    bytes.extend_from_slice(string_table_bytes.as_slice());
    proof {
        assert(header@ == file_header(all.len()));
        assert(bytes@ =~= elf_image(all, path));
    }
    Some(bytes)
}

} // verus!
