//! From source text to object file: tokens, checks, sections, bytes.

use crate::builder::{build_sections, build_spec, no_invalid};
use crate::layout::{elf_image, layout_fits};
use crate::parse::{
    check_tokens, parse_chars, parse_spec, token_error, tokens_valid, tokens_view, CheckErrorType,
    CheckResult, Directive, DirectiveView, LineToken, LineTokenView,
};
use crate::text::{chars_of, pieces_view, split, split_spec, string_of, strings_view};
use crate::writer::write_elf;
use vstd::prelude::*;

verus! {

/// The tokens of a source text: one per line, where lines end at every
/// line feed. A text that ends in a line feed has one more, empty line.
pub open spec fn tokenize_spec(text: Seq<char>) -> Seq<LineTokenView> {
    let lines = split_spec(text, '\n');
    Seq::new(lines.len(), |i: int| parse_spec(lines[i]))
}

/// The lines of `text`, without their line feeds.
pub fn lines(text: &str) -> (lines: Vec<String>)
    ensures
        strings_view(lines@) == split_spec(text@, '\n'),
{
    let chars = chars_of(text);
    let pieces = split(&chars, 0, chars.len(), '\n');
    assert(chars@.subrange(0, chars@.len() as int) =~= text@);
    let ghost expected = split_spec(text@, '\n');
    let mut lines: Vec<String> = Vec::new();
    let mut i: usize = 0;
    while i < pieces.len()
        invariant
            i <= pieces.len(),
            pieces_view(pieces@) == expected,
            strings_view(lines@) == expected.take(i as int),
        decreases pieces.len() - i,
    {
        let ghost before = lines@;
        let piece = &pieces[i];
        let line = string_of(piece, 0, piece.len());
        lines.push(line);
        proof {
            assert(line@ =~= piece@);
            assert(pieces_view(pieces@)[i as int] == piece@);
            assert(strings_view(before).len() == i);
            assert forall|j: int| 0 <= j <= i implies strings_view(lines@)[j] == expected[j] by {
                if j < i {
                    assert(strings_view(before)[j] == expected.take(i as int)[j]);
                    assert(lines@[j] == before[j]);
                }
            }
            assert(strings_view(lines@) =~= expected.take(i + 1));
        }
        i += 1;
    }
    assert(expected.take(i as int) =~= expected);
    lines
}

/// Cuts `text` into lines and parses each.
pub fn tokenize(text: &str) -> (tokens: Vec<LineToken>)
    ensures
        tokens_view(tokens@) == tokenize_spec(text@),
{
    let chars = chars_of(text);
    let lines = split(&chars, 0, chars.len(), '\n');
    assert(chars@.subrange(0, chars@.len() as int) =~= text@);
    let ghost expected = tokenize_spec(text@);
    let mut tokens: Vec<LineToken> = Vec::new();
    let mut i: usize = 0;
    while i < lines.len()
        invariant
            i <= lines.len(),
            pieces_view(lines@) == split_spec(text@, '\n'),
            expected == tokenize_spec(text@),
            tokens_view(tokens@) == expected.take(i as int),
        decreases lines.len() - i,
    {
        let ghost before = tokens@;
        let token = parse_chars(&lines[i]);
        tokens.push(token);
        proof {
            assert(pieces_view(lines@)[i as int] == lines@[i as int]@);
            assert(tokens_view(before).len() == i);
            assert forall|j: int| 0 <= j <= i implies tokens_view(tokens@)[j] == expected[j] by {
                if j < i {
                    assert(tokens_view(before)[j] == expected.take(i as int)[j]);
                    assert(tokens@[j] == before[j]);
                }
            }
            assert(tokens_view(tokens@) =~= expected.take(i + 1));
        }
        i += 1;
    }
    assert(expected.take(i as int) =~= expected);
    tokens
}

/// Whether some line of the program defines the label `name`.
pub open spec fn defines(tokens: Seq<LineTokenView>, name: Seq<char>) -> bool {
    exists|i: int| 0 <= i < tokens.len() && #[trigger] tokens[i] == LineTokenView::Label(name)
}

/// Whether the program defines every label of `names`.
pub open spec fn all_defined(tokens: Seq<LineTokenView>, names: Seq<Seq<char>>) -> bool {
    forall|k: int| 0 <= k < names.len() ==> defines(tokens, #[trigger] names[k])
}

/// The labels that `token` declares global.
pub open spec fn declared_globals(token: LineTokenView) -> Seq<Seq<char>> {
    match token {
        LineTokenView::Directive(DirectiveView::Global(names)) => names,
        _ => Seq::empty(),
    }
}

/// Whether `token` declares no label global that the program does not define.
pub open spec fn token_resolved(tokens: Seq<LineTokenView>, token: LineTokenView) -> bool {
    all_defined(tokens, declared_globals(token))
}

/// Whether the program defines every label that it declares global.
pub open spec fn globals_resolved(tokens: Seq<LineTokenView>) -> bool {
    forall|i: int| 0 <= i < tokens.len() ==> token_resolved(tokens, #[trigger] tokens[i])
}

/// Whether `name`, declared global by the token at `at`, is the first label
/// that the program declares global and does not define.
pub open spec fn first_unresolved(tokens: Seq<LineTokenView>, at: int, name: Seq<char>) -> bool {
    &&& 0 <= at < tokens.len()
    &&& globals_resolved_before(tokens, at)
    &&& exists|j: int| #[trigger]
        first_undefined_at(tokens, declared_globals(tokens[at]), j) && declared_globals(
            tokens[at],
        )[j] == name
}

/// Whether the name of index `j` is the first of `names` that the program
/// does not define.
pub open spec fn first_undefined_at(
    tokens: Seq<LineTokenView>,
    names: Seq<Seq<char>>,
    j: int,
) -> bool {
    &&& 0 <= j < names.len()
    &&& !defines(tokens, names[j])
    &&& all_defined(tokens, names.take(j))
}

/// Whether every token before `at` is resolved.
pub open spec fn globals_resolved_before(tokens: Seq<LineTokenView>, at: int) -> bool {
    forall|i: int| 0 <= i < at ==> token_resolved(tokens, #[trigger] tokens[i])
}

fn defines_label(tokens: &Vec<LineToken>, name: &String) -> (found: bool)
    ensures
        found == defines(tokens_view(tokens@), name@),
{
    let ghost all = tokens_view(tokens@);
    let mut i: usize = 0;
    while i < tokens.len()
        invariant
            i <= tokens.len(),
            all == tokens_view(tokens@),
            forall|j: int| 0 <= j < i ==> #[trigger] all[j] != LineTokenView::Label(name@),
        decreases tokens.len() - i,
    {
        let is_it = match &tokens[i] {
            LineToken::Label(label) => *label == *name,
            _ => false,
        };
        if is_it {
            assert(all[i as int] == LineTokenView::Label(name@));
            return true;
        }
        i += 1;
    }
    false
}

fn first_undefined(tokens: &Vec<LineToken>, names: &Vec<String>) -> (found: Option<usize>)
    ensures
        match found {
            Some(j) => {
                &&& j < names.len()
                &&& !defines(tokens_view(tokens@), names@[j as int]@)
                &&& all_defined(tokens_view(tokens@), strings_view(names@).take(j as int))
            },
            None => all_defined(tokens_view(tokens@), strings_view(names@)),
        },
{
    let mut j: usize = 0;
    while j < names.len()
        invariant
            j <= names.len(),
            all_defined(tokens_view(tokens@), strings_view(names@).take(j as int)),
        decreases names.len() - j,
    {
        if !defines_label(tokens, &names[j]) {
            return Some(j);
        }
        proof {
            let views = strings_view(names@);
            assert(views.take(j + 1) =~= views.take(j as int).push(views[j as int]));
            assert forall|k: int| 0 <= k < j + 1 implies defines(
                tokens_view(tokens@),
                #[trigger] views.take(j + 1)[k],
            ) by {
                if k < j {
                    assert(views.take(j + 1)[k] == views.take(j as int)[k]);
                }
            }
        }
        j += 1;
    }
    assert(strings_view(names@).take(j as int) =~= strings_view(names@));
    None
}

/// Finds the first label that the program declares global and does not
/// define as a label: the index of the declaring line and the name.
pub fn find_unresolved_global(tokens: &Vec<LineToken>) -> (found: Option<(usize, String)>)
    ensures
        match found {
            Some((at, name)) => first_unresolved(tokens_view(tokens@), at as int, name@),
            None => globals_resolved(tokens_view(tokens@)),
        },
{
    let ghost all = tokens_view(tokens@);
    let mut i: usize = 0;
    while i < tokens.len()
        invariant
            i <= tokens.len(),
            all == tokens_view(tokens@),
            globals_resolved_before(all, i as int),
        decreases tokens.len() - i,
    {
        match &tokens[i] {
            LineToken::Directive(Directive::Global(names)) => {
                match first_undefined(tokens, names) {
                    Some(j) => {
                        let name = names[j].clone();
                        proof {
                            let views = strings_view(names@);
                            assert(all[i as int] == LineTokenView::Directive(
                                DirectiveView::Global(views),
                            ));
                            assert(views[j as int] == name@);
                            assert(declared_globals(all[i as int]) == views);
                            assert(first_undefined_at(all, views, j as int));
                            assert(first_unresolved(all, i as int, name@));
                        }
                        return Some((i, name));
                    },
                    None => {},
                }
            },
            _ => {},
        }
        assert(token_resolved(all, all[i as int]));
        i += 1;
    }
    None
}

/// What to do about a label that is declared global and never defined.
#[derive(Debug, Clone, Copy, PartialEq, Eq)]
pub enum GlobalPolicy {
    /// Refuse the program.
    HardFail,
    /// Assemble the program all the same.
    Ignore,
}

/// Why a program was not assembled.
#[derive(Debug, PartialEq, Eq)]
pub enum AssembleError {
    /// The line at index `at` is in error.
    Check { at: usize, error_type: CheckErrorType },
    /// The line at index `at` declares `name` global, and no line defines it.
    UnresolvedGlobalSymbol { at: usize, name: String },
    /// The object file would not fit its own fields.
    TooLarge,
}

/// What assembling `text` under `policy` must give.
pub open spec fn assemble_spec(
    text: Seq<char>,
    path: Seq<char>,
    policy: GlobalPolicy,
    result: Result<Vec<u8>, AssembleError>,
) -> bool {
    let tokens = tokenize_spec(text);
    let sections = build_spec(tokens);
    match result {
        Err(AssembleError::Check { at, error_type }) => {
            &&& at < tokens.len()
            &&& token_error(tokens[at as int]) == Some(error_type)
            &&& tokens_valid(tokens.take(at as int))
        },
        Err(AssembleError::UnresolvedGlobalSymbol { at, name }) => {
            &&& tokens_valid(tokens)
            &&& policy == GlobalPolicy::HardFail
            &&& first_unresolved(tokens, at as int, name@)
        },
        Err(AssembleError::TooLarge) => {
            &&& tokens_valid(tokens)
            &&& policy == GlobalPolicy::HardFail ==> globals_resolved(tokens)
            &&& !layout_fits(sections, path)
        },
        Ok(bytes) => {
            &&& tokens_valid(tokens)
            &&& policy == GlobalPolicy::HardFail ==> globals_resolved(tokens)
            &&& layout_fits(sections, path)
            &&& bytes@ == elf_image(sections, path)
        },
    }
}

/// Whether two results of assembling are the same: the same bytes, or the
/// same error at the same line about the same name.
pub open spec fn same_result(
    first: Result<Vec<u8>, AssembleError>,
    second: Result<Vec<u8>, AssembleError>,
) -> bool {
    match (first, second) {
        (Ok(a), Ok(b)) => a@ == b@,
        (
            Err(AssembleError::Check { at: a, error_type: e }),
            Err(AssembleError::Check { at: b, error_type: f }),
        ) => a == b && e == f,
        (
            Err(AssembleError::UnresolvedGlobalSymbol { at: a, name: m }),
            Err(AssembleError::UnresolvedGlobalSymbol { at: b, name: n }),
        ) => a == b && m@ == n@,
        (Err(AssembleError::TooLarge), Err(AssembleError::TooLarge)) => true,
        _ => false,
    }
}

/// The first token in error is unique, and there is none where all tokens
/// are valid.
pub proof fn lemma_first_error_unique(
    tokens: Seq<LineTokenView>,
    at: int,
    error_type: CheckErrorType,
    other_at: int,
    other_type: CheckErrorType,
)
    requires
        0 <= at < tokens.len(),
        token_error(tokens[at]) == Some(error_type),
        tokens_valid(tokens.take(at)),
        0 <= other_at < tokens.len(),
        token_error(tokens[other_at]) == Some(other_type),
        tokens_valid(tokens.take(other_at)),
    ensures
        at == other_at,
        error_type == other_type,
        !tokens_valid(tokens),
{
    if at < other_at {
        assert(tokens.take(other_at)[at] == tokens[at]);
    }
    if other_at < at {
        assert(tokens.take(at)[other_at] == tokens[other_at]);
    }
}

/// The first label that is declared global and not defined is unique, and
/// there is none where every such label is defined.
pub proof fn lemma_first_unresolved_unique(
    tokens: Seq<LineTokenView>,
    at: int,
    name: Seq<char>,
    other_at: int,
    other_name: Seq<char>,
)
    requires
        first_unresolved(tokens, at, name),
        first_unresolved(tokens, other_at, other_name),
    ensures
        at == other_at,
        name == other_name,
        !globals_resolved(tokens),
{
    let names = declared_globals(tokens[at]);
    let j = choose|j: int| #[trigger] first_undefined_at(tokens, names, j) && names[j] == name;
    assert(!token_resolved(tokens, tokens[at])) by {
        assert(!defines(tokens, names[j]));
    }
    let others = declared_globals(tokens[other_at]);
    let k = choose|k: int| #[trigger]
        first_undefined_at(tokens, others, k) && others[k] == other_name;
    assert(!token_resolved(tokens, tokens[other_at])) by {
        assert(!defines(tokens, others[k]));
    }
    if j < k {
        assert(names.take(k)[j] == names[j]);
    }
    if k < j {
        assert(names.take(j)[k] == names[k]);
    }
}

/// Assembling is deterministic: whatever two runs on the same text, path
/// and policy return is the same, byte for byte.
pub proof fn lemma_assemble_deterministic(
    text: Seq<char>,
    path: Seq<char>,
    policy: GlobalPolicy,
    first: Result<Vec<u8>, AssembleError>,
    second: Result<Vec<u8>, AssembleError>,
)
    requires
        assemble_spec(text, path, policy, first),
        assemble_spec(text, path, policy, second),
    ensures
        same_result(first, second),
{
    let tokens = tokenize_spec(text);
    match first {
        Err(AssembleError::Check { at, error_type }) => {
            lemma_first_error_unique(tokens, at as int, error_type, at as int, error_type);
            match second {
                Err(AssembleError::Check { at: other_at, error_type: other_type }) => {
                    lemma_first_error_unique(
                        tokens,
                        at as int,
                        error_type,
                        other_at as int,
                        other_type,
                    );
                },
                _ => {},
            }
        },
        Err(AssembleError::UnresolvedGlobalSymbol { at, name }) => {
            lemma_first_unresolved_unique(tokens, at as int, name@, at as int, name@);
            match second {
                Err(AssembleError::Check { at: other_at, error_type: other_type }) => {
                    lemma_first_error_unique(
                        tokens,
                        other_at as int,
                        other_type,
                        other_at as int,
                        other_type,
                    );
                },
                Err(AssembleError::UnresolvedGlobalSymbol { at: other_at, name: other_name }) => {
                    lemma_first_unresolved_unique(
                        tokens,
                        at as int,
                        name@,
                        other_at as int,
                        other_name@,
                    );
                },
                _ => {},
            }
        },
        _ => {
            match second {
                Err(AssembleError::Check { at: other_at, error_type: other_type }) => {
                    lemma_first_error_unique(
                        tokens,
                        other_at as int,
                        other_type,
                        other_at as int,
                        other_type,
                    );
                },
                Err(AssembleError::UnresolvedGlobalSymbol { at: other_at, name: other_name }) => {
                    lemma_first_unresolved_unique(
                        tokens,
                        other_at as int,
                        other_name@,
                        other_at as int,
                        other_name@,
                    );
                },
                _ => {},
            }
        },
    }
}

/// Assembles the program `text`, read from the file at `source_path`, into
/// an object file.
///
/// The first line in error stops the work; then, under
/// `GlobalPolicy::HardFail`, the first label that is declared global and
/// never defined does. Nothing is written in either case.
pub fn assemble_with(text: &str, source_path: &str, policy: GlobalPolicy) -> (result: Result<
    Vec<u8>,
    AssembleError,
>)
    ensures
        assemble_spec(text@, source_path@, policy, result),
{
    let tokens = tokenize(text);
    let ghost all = tokens_view(tokens@);
    match check_tokens(&tokens) {
        CheckResult::Valid => {},
        CheckResult::Error { at, error_type } => {
            assert(all[at as int] == tokens@[at as int]@);
            return Err(AssembleError::Check { at, error_type });
        },
    }
    match policy {
        GlobalPolicy::HardFail => {
            match find_unresolved_global(&tokens) {
                Some((at, name)) => {
                    return Err(AssembleError::UnresolvedGlobalSymbol { at, name });
                },
                None => {},
            }
        },
        GlobalPolicy::Ignore => {},
    }
    assert(no_invalid(all)) by {
        assert forall|i: int| 0 <= i < all.len() implies !(#[trigger] all[i] is Invalid) by {
            assert(token_error(all[i]) is None);
        }
    }
    let sections = build_sections(&tokens);
    match write_elf(&sections, source_path) {
        Some(bytes) => Ok(bytes),
        None => Err(AssembleError::TooLarge),
    }
}

/// Assembles the program `text`, read from the file at `source_path`, into
/// an object file, and refuses a label that is declared global and never
/// defined.
pub fn assemble(text: &str, source_path: &str) -> (result: Result<Vec<u8>, AssembleError>)
    ensures
        assemble_spec(text@, source_path@, GlobalPolicy::HardFail, result),
{
    assemble_with(text, source_path, GlobalPolicy::HardFail)
}

} // verus!
