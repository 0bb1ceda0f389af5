//! From one line of source text to a typed token, and the check that a
//! stream of tokens may be assembled.

use crate::text::{
    chars_of, clone_strings, lemma_split_nonempty, pieces_view, spells, split, split_spec,
    string_of, strings_view, trim, trim_bounds,
};
use vstd::prelude::*;

verus! {

/// The instructions the assembler knows.
///
/// A new instruction is a new variant together with its rows in
/// [`Opcode::mnemonic`], [`Opcode::encoding`], [`lookup_spec`] and their
/// executable counterparts; the parser and the object writer reach the
/// table through [`lookup`] and [`encode`] only.
#[derive(Debug, Clone, Copy, PartialEq, Eq, Structural)]
pub enum Opcode {
    Syscall,
    Nop,
}

impl Opcode {
    /// The name of the instruction in source text.
    pub open spec fn mnemonic(self) -> Seq<char> {
        match self {
            Opcode::Syscall => seq!['s', 'y', 's', 'c', 'a', 'l', 'l'],
            Opcode::Nop => seq!['n', 'o', 'p'],
        }
    }

    /// The fixed machine code of the instruction.
    pub open spec fn encoding(self) -> Seq<u8> {
        match self {
            Opcode::Syscall => seq![0x0fu8, 0x05u8],
            Opcode::Nop => seq![0x90u8],
        }
    }

    /// The fixed machine code of the instruction.
    pub fn get_opcode(&self) -> (bytes: Vec<u8>)
        ensures
            bytes@ == self.encoding(),
    {
        let bytes = match self {
            Opcode::Syscall => vec![0x0f, 0x05],
            Opcode::Nop => vec![0x90],
        };
        assert(bytes@ =~= self.encoding());
        bytes
    }
}

/// The opcode that the table lists under `mnemonic`, if any.
pub open spec fn lookup_spec(mnemonic: Seq<char>) -> Option<Opcode> {
    if mnemonic == Opcode::Nop.mnemonic() {
        Some(Opcode::Nop)
    } else if mnemonic == Opcode::Syscall.mnemonic() {
        Some(Opcode::Syscall)
    } else {
        None
    }
}

/// Every opcode is found under its own mnemonic, and under no other text.
pub proof fn lemma_lookup_mnemonic(opcode: Opcode, text: Seq<char>)
    ensures
        lookup_spec(opcode.mnemonic()) == Some(opcode),
        lookup_spec(text) == Some(opcode) <==> text == opcode.mnemonic(),
{
    assert(Opcode::Nop.mnemonic().len() != Opcode::Syscall.mnemonic().len());
}

fn lookup_chars(word: &Vec<char>) -> (opcode: Option<Opcode>)
    ensures
        opcode == lookup_spec(word@),
{
    proof {
        reveal_strlit("nop");
        reveal_strlit("syscall");
        assert("nop"@ =~= Opcode::Nop.mnemonic());
        assert("syscall"@ =~= Opcode::Syscall.mnemonic());
    }
    if spells(word, "nop") {
        Some(Opcode::Nop)
    } else if spells(word, "syscall") {
        Some(Opcode::Syscall)
    } else {
        None
    }
}

/// Looks `mnemonic` up in the opcode table.
pub fn lookup(mnemonic: &str) -> (opcode: Option<Opcode>)
    ensures
        opcode == lookup_spec(mnemonic@),
{
    let word = chars_of(mnemonic);
    lookup_chars(&word)
}

/// One instruction: its opcode and the bytes of its operands.
#[derive(Debug, PartialEq, Eq)]
pub struct Instruction {
    pub opcode: Opcode,
    pub operands: Vec<u8>,
}

/// What an [`Instruction`] holds.
pub struct InstructionView {
    pub opcode: Opcode,
    pub operands: Seq<u8>,
}

impl View for Instruction {
    type V = InstructionView;

    open spec fn view(&self) -> InstructionView {
        InstructionView { opcode: self.opcode, operands: self.operands@ }
    }
}

impl Clone for Instruction {
    fn clone(&self) -> (copy: Self)
        ensures
            copy@ == self@,
    {
        let operands = self.operands.clone();
        assert(operands@ =~= self.operands@);
        Instruction { opcode: self.opcode, operands }
    }
}

/// The machine code of an instruction with the given opcode and operand
/// bytes. No opcode of the table takes operands, so the code is the fixed
/// code of the opcode.
pub open spec fn encode_spec(opcode: Opcode, operands: Seq<u8>) -> Seq<u8> {
    opcode.encoding()
}

/// The machine code of an instruction with the given opcode and operand bytes.
pub fn encode(opcode: &Opcode, operands: &Vec<u8>) -> (bytes: Vec<u8>)
    ensures
        bytes@ == encode_spec(*opcode, operands@),
{
    opcode.get_opcode()
}

/// A directive to the assembler.
#[derive(Debug, PartialEq, Eq)]
pub enum Directive {
    Global(Vec<String>),
    Section(String),
}

/// What a [`Directive`] holds.
pub enum DirectiveView {
    Global(Seq<Seq<char>>),
    Section(Seq<char>),
}

impl View for Directive {
    type V = DirectiveView;

    open spec fn view(&self) -> DirectiveView {
        match self {
            Directive::Global(names) => DirectiveView::Global(strings_view(names@)),
            Directive::Section(name) => DirectiveView::Section(name@),
        }
    }
}

impl Clone for Directive {
    fn clone(&self) -> (copy: Self)
        ensures
            copy@ == self@,
    {
        match self {
            Directive::Global(names) => Directive::Global(clone_strings(names)),
            Directive::Section(name) => Directive::Section(name.clone()),
        }
    }
}

/// What one line of source text says.
#[derive(Debug, PartialEq, Eq)]
pub enum LineToken {
    Invalid,
    Empty,
    Comment,
    Instruction(Instruction),
    Directive(Directive),
    Label(String),
}

/// What a [`LineToken`] holds.
pub enum LineTokenView {
    Invalid,
    Empty,
    Comment,
    Instruction(InstructionView),
    Directive(DirectiveView),
    Label(Seq<char>),
}

impl View for LineToken {
    type V = LineTokenView;

    open spec fn view(&self) -> LineTokenView {
        match self {
            LineToken::Invalid => LineTokenView::Invalid,
            LineToken::Empty => LineTokenView::Empty,
            LineToken::Comment => LineTokenView::Comment,
            LineToken::Instruction(instruction) => LineTokenView::Instruction(instruction@),
            LineToken::Directive(directive) => LineTokenView::Directive(directive@),
            LineToken::Label(name) => LineTokenView::Label(name@),
        }
    }
}

impl Clone for LineToken {
    fn clone(&self) -> (copy: Self)
        ensures
            copy@ == self@,
    {
        match self {
            LineToken::Invalid => LineToken::Invalid,
            LineToken::Empty => LineToken::Empty,
            LineToken::Comment => LineToken::Comment,
            LineToken::Instruction(instruction) => LineToken::Instruction(instruction.clone()),
            LineToken::Directive(directive) => LineToken::Directive(directive.clone()),
            LineToken::Label(name) => LineToken::Label(name.clone()),
        }
    }
}

/// What a sequence of tokens holds.
pub open spec fn tokens_view(tokens: Seq<LineToken>) -> Seq<LineTokenView> {
    Seq::new(tokens.len(), |i: int| tokens[i]@)
}

/// The word that opens a `global` directive.
pub open spec fn global_keyword() -> Seq<char> {
    seq!['g', 'l', 'o', 'b', 'a', 'l']
}

/// The word that opens a `section` directive.
pub open spec fn section_keyword() -> Seq<char> {
    seq!['s', 'e', 'c', 't', 'i', 'o', 'n']
}

/// The token of a line that is neither empty nor a comment, from its words.
pub open spec fn words_token(words: Seq<Seq<char>>) -> LineTokenView {
    let first = words[0];
    if first == global_keyword() && words.len() >= 2 {
        LineTokenView::Directive(DirectiveView::Global(words.skip(1)))
    } else if first == section_keyword() && words.len() >= 2 {
        LineTokenView::Directive(DirectiveView::Section(words[1]))
    } else if first == global_keyword() || first == section_keyword() {
        LineTokenView::Invalid
    } else if words.len() == 1 && first.len() > 0 && first.last() == ':' {
        LineTokenView::Label(first.drop_last())
    } else {
        match lookup_spec(first) {
            Some(opcode) => LineTokenView::Instruction(
                InstructionView { opcode, operands: Seq::empty() },
            ),
            None => LineTokenView::Invalid,
        }
    }
}

/// The token of one line.
///
/// The line is trimmed first. Nothing left makes it `Empty`; a leading `;`
/// makes it a `Comment`. Otherwise it is cut into words at every single
/// space: `global` followed by at least one word is a directive that names
/// all the words after it; `section` followed by at least one word is a
/// directive that names the second word; a lone word that ends in `:` is a
/// label named by the word without that colon; a first word found in the
/// opcode table is an instruction without operands; all else is `Invalid`.
pub open spec fn parse_spec(line: Seq<char>) -> LineTokenView {
    let trimmed = trim(line);
    if trimmed.len() == 0 {
        LineTokenView::Empty
    } else if trimmed[0] == ';' {
        LineTokenView::Comment
    } else {
        words_token(split_spec(trimmed, ' '))
    }
}

fn names_from(words: &Vec<Vec<char>>) -> (names: Vec<String>)
    requires
        words.len() >= 1,
    ensures
        strings_view(names@) == pieces_view(words@).skip(1),
{
    let mut names: Vec<String> = Vec::new();
    let mut i: usize = 1;
    while i < words.len()
        invariant
            1 <= i <= words.len(),
            strings_view(names@) == pieces_view(words@).subrange(1, i as int),
        decreases words.len() - i,
    {
        let word = &words[i];
        let name = string_of(word, 0, word.len());
        assert(name@ =~= word@);
        let ghost before = names@;
        names.push(name);
        proof {
            let target = pieces_view(words@).subrange(1, i + 1);
            assert(strings_view(before).len() == pieces_view(words@).subrange(1, i as int).len());
            assert(before.len() == i - 1);
            assert(names@.len() == i);
            assert(target.len() == i);
            assert forall|j: int| 0 <= j < target.len() implies strings_view(names@)[j]
                == target[j] by {
                if j < before.len() {
                    assert(strings_view(before)[j] == pieces_view(words@).subrange(1, i as int)[j]);
                    assert(names@[j] == before[j]);
                } else {
                    assert(names@[j]@ == word@);
                    assert(target[j] == pieces_view(words@)[i as int]);
                }
            }
            assert(strings_view(names@) =~= target);
        }
        i += 1;
    }
    assert(pieces_view(words@).subrange(1, words.len() as int) =~= pieces_view(words@).skip(1));
    names
}

/// The token of the line made of `chars`.
pub fn parse_chars(chars: &Vec<char>) -> (token: LineToken)
    ensures
        token@ == parse_spec(chars@),
{
    let (start, end) = trim_bounds(chars);
    if start == end {
        return LineToken::Empty;
    }
    assert(trim(chars@)[0] == chars@[start as int]);
    if chars[start] == ';' {
        return LineToken::Comment;
    }
    let words = split(chars, start, end, ' ');
    proof {
        lemma_split_nonempty(trim(chars@), ' ');
        reveal_strlit("global");
        reveal_strlit("section");
        assert("global"@ =~= global_keyword());
        assert("section"@ =~= section_keyword());
    }
    let first = &words[0];
    assert(first@ == pieces_view(words@)[0]);
    let is_global = spells(first, "global");
    let is_section = spells(first, "section");
    if is_global || is_section {
        if words.len() == 1 {
            return LineToken::Invalid;
        }
        if is_global {
            let names = names_from(&words);
            return LineToken::Directive(Directive::Global(names));
        }
        let word = &words[1];
        assert(word@ == pieces_view(words@)[1]);
        let name = string_of(word, 0, word.len());
        assert(name@ =~= word@);
        return LineToken::Directive(Directive::Section(name));
    }
    if words.len() == 1 && first.len() > 0 && first[first.len() - 1] == ':' {
        let name = string_of(first, 0, first.len() - 1);
        assert(name@ =~= first@.drop_last());
        return LineToken::Label(name);
    }
    match lookup_chars(first) {
        Some(opcode) => {
            let operands: Vec<u8> = Vec::new();
            LineToken::Instruction(Instruction { opcode, operands })
        },
        None => LineToken::Invalid,
    }
}

/// The token of one line of source text.
pub fn parse(line: &str) -> (token: LineToken)
    ensures
        token@ == parse_spec(line@),
{
    let chars = chars_of(line);
    parse_chars(&chars)
}

/// Why a token stream cannot be assembled.
#[derive(Debug, Clone, Copy, PartialEq, Eq)]
pub enum CheckErrorType {
    InvalidInstruction,
    InvalidSectionName,
}

/// The outcome of checking a token stream.
#[derive(Debug, Clone, Copy, PartialEq, Eq)]
pub enum CheckResult {
    Valid,
    Error { at: usize, error_type: CheckErrorType },
}

/// A section name is well formed when it starts with `.` and is more than
/// that dot once trimmed.
pub open spec fn valid_section_name(name: Seq<char>) -> bool {
    name.len() > 0 && name[0] == '.' && trim(name) != seq!['.']
}

/// What is wrong with a single token, if anything.
pub open spec fn token_error(token: LineTokenView) -> Option<CheckErrorType> {
    match token {
        LineTokenView::Invalid => Some(CheckErrorType::InvalidInstruction),
        LineTokenView::Directive(DirectiveView::Section(name)) => if valid_section_name(name) {
            None
        } else {
            Some(CheckErrorType::InvalidSectionName)
        },
        _ => None,
    }
}

/// Whether no token of the stream is in error.
pub open spec fn tokens_valid(tokens: Seq<LineTokenView>) -> bool {
    forall|i: int| 0 <= i < tokens.len() ==> token_error(#[trigger] tokens[i]) is None
}

fn section_name_is_valid(name: &String) -> (valid: bool)
    ensures
        valid == valid_section_name(name@),
{
    let chars = chars_of(name.as_str());
    if chars.len() == 0 || chars[0] != '.' {
        return false;
    }
    let (start, end) = trim_bounds(&chars);
    let only_dot = end - start == 1 && chars[start] == '.';
    proof {
        let trimmed = chars@.subrange(start as int, end as int);
        if only_dot {
            assert(trimmed =~= seq!['.']);
        } else if trimmed == seq!['.'] {
            assert(trimmed.len() == 1);
            assert(trimmed[0] == '.');
        }
    }
    !only_dot
}

/// Finds the first token in error.
///
/// The result is `Valid` exactly when no token is in error; otherwise it names
/// the index of the first token in error and what is wrong with it.
pub fn check_tokens(tokens: &Vec<LineToken>) -> (result: CheckResult)
    ensures
        match result {
            CheckResult::Valid => tokens_valid(tokens_view(tokens@)),
            CheckResult::Error { at, error_type } => {
                &&& at < tokens.len()
                &&& token_error(tokens@[at as int]@) == Some(error_type)
                &&& tokens_valid(tokens_view(tokens@).take(at as int))
            },
        },
{
    let mut i: usize = 0;
    while i < tokens.len()
        invariant
            i <= tokens.len(),
            tokens_valid(tokens_view(tokens@).take(i as int)),
        decreases tokens.len() - i,
    {
        let error = match &tokens[i] {
            LineToken::Invalid => Some(CheckErrorType::InvalidInstruction),
            LineToken::Directive(Directive::Section(section_name)) => {
                if section_name_is_valid(section_name) {
                    None
                } else {
                    Some(CheckErrorType::InvalidSectionName)
                }
            },
            _ => None,
        };
        assert(error == token_error(tokens@[i as int]@));
        match error {
            Some(error_type) => {
                return CheckResult::Error { at: i, error_type };
            },
            None => {},
        }
        proof {
            let all = tokens_view(tokens@);
            assert(all.take(i + 1) =~= all.take(i as int).push(all[i as int]));
        }
        i += 1;
    }
    assert(tokens_view(tokens@).take(i as int) =~= tokens_view(tokens@));
    CheckResult::Valid
}

} // verus!
