//! From the tokens of a program to its sections.
//!
//! The builder is a fold over the tokens. Its state is the sections that
//! are closed, the `.text` section that always exists, the section that a
//! `section` directive opened last (none while `.text` is current) and the
//! label that is open, with the instructions seen under it since it was
//! opened or named again.
//!
//! A label gets its group, still empty, at the end of the current section
//! when it is opened. Closing a label moves the instructions seen under it
//! to the last group of the section where that group carries the label, and
//! that is the group the label was opened with. So a label that is named
//! again while it is open keeps its one group, and a label that is opened
//! again once it was closed, by another label or by a `section` directive,
//! gets a second group of the same name.

use crate::node::{
    clone_instructions, empty_section, groups_view, instructions_view, sections_view,
    SectionNode, SectionNodeView,
};
use crate::parse::{
    tokens_view, Directive, DirectiveView, Instruction, InstructionView, LineToken, LineTokenView,
};
use crate::text::strings_view;
use vstd::prelude::*;

verus! {

/// The name of the section that always exists.
pub open spec fn text_name() -> Seq<char> {
    seq!['.', 't', 'e', 'x', 't']
}

/// The label that `.text` exports from the start.
pub open spec fn start_label() -> Seq<char> {
    seq!['_', 's', 't', 'a', 'r', 't']
}

/// The state of the builder between two tokens.
pub struct BuilderState {
    /// The sections that were left for another one, in the order they were opened.
    pub closed: Seq<SectionNodeView>,
    /// The `.text` section.
    pub text: SectionNodeView,
    /// The section that is current, where it is not `.text`.
    pub current: Option<SectionNodeView>,
    /// The label that is open, with the instructions under it so far.
    pub open_label: Option<(Seq<char>, Seq<InstructionView>)>,
}

/// `known` followed by the labels of `new` that are not yet known, each once,
/// in the order of their first occurrence.
pub open spec fn merge_labels(known: Seq<Seq<char>>, new: Seq<Seq<char>>) -> Seq<Seq<char>>
    decreases new.len(),
{
    if new.len() == 0 {
        known
    } else {
        let merged = merge_labels(known, new.drop_last());
        if merged.contains(new.last()) {
            merged
        } else {
            merged.push(new.last())
        }
    }
}

/// `section` with more global labels declared.
pub open spec fn with_globals(section: SectionNodeView, labels: Seq<Seq<char>>) -> SectionNodeView {
    SectionNodeView { global_labels: merge_labels(section.global_labels, labels), ..section }
}

/// Whether `section` has groups and the last of them carries `label`.
pub open spec fn last_group_is(section: SectionNodeView, label: Seq<char>) -> bool {
    section.labeled_instructions.len() > 0 && section.labeled_instructions.last().0 == label
}

/// `section` with `instructions` under `label` at its end. Where the last
/// group of the section carries `label`, the instructions of that group are
/// followed by `instructions` and no group is added. Otherwise one group is
/// appended, also where an earlier group carries the same label.
pub open spec fn with_group(
    section: SectionNodeView,
    label: Seq<char>,
    instructions: Seq<InstructionView>,
) -> SectionNodeView {
    let groups = section.labeled_instructions;
    if last_group_is(section, label) {
        SectionNodeView {
            labeled_instructions: groups.drop_last().push(
                (label, groups.last().1 + instructions),
            ),
            ..section
        }
    } else {
        SectionNodeView { labeled_instructions: groups.push((label, instructions)), ..section }
    }
}

/// `section` with a new group of `label` at its end, which holds no
/// instruction yet. A group is added whatever the groups before it carry.
pub open spec fn with_new_group(section: SectionNodeView, label: Seq<char>) -> SectionNodeView {
    SectionNodeView {
        labeled_instructions: section.labeled_instructions.push((label, Seq::empty())),
        ..section
    }
}

/// `section` with one more instruction before its first label.
pub open spec fn with_default(
    section: SectionNodeView,
    instruction: InstructionView,
) -> SectionNodeView {
    SectionNodeView {
        default_instructions: section.default_instructions.push(instruction),
        ..section
    }
}

/// The state before the first token: `.text` is current and exports `_start`.
pub open spec fn initial_state() -> BuilderState {
    BuilderState {
        closed: Seq::empty(),
        text: SectionNodeView { global_labels: seq![start_label()], ..empty_section(text_name()) },
        current: None,
        open_label: None,
    }
}

/// Opens `name` where no label is open: the current section gets a new,
/// empty group of that name.
pub open spec fn open_group(state: BuilderState, name: Seq<char>) -> BuilderState {
    match state.current {
        Some(section) => BuilderState {
            current: Some(with_new_group(section, name)),
            open_label: Some((name, Seq::empty())),
            ..state
        },
        None => BuilderState {
            text: with_new_group(state.text, name),
            open_label: Some((name, Seq::empty())),
            ..state
        },
    }
}

/// The section that instructions and labels go to: the current one, or
/// `.text` where none is current.
pub open spec fn active_section(state: BuilderState) -> SectionNodeView {
    match state.current {
        Some(section) => section,
        None => state.text,
    }
}

/// Closes the open label: the instructions seen under it go to the end of
/// the current section, into its last group where that group carries the
/// label and into a new group otherwise.
pub open spec fn flush_label(state: BuilderState) -> BuilderState {
    match state.open_label {
        None => state,
        Some((label, instructions)) => match state.current {
            Some(section) => BuilderState {
                current: Some(with_group(section, label, instructions)),
                open_label: None,
                ..state
            },
            None => BuilderState {
                text: with_group(state.text, label, instructions),
                open_label: None,
                ..state
            },
        },
    }
}

/// Leaves the current section, where it is not `.text`: it joins the closed ones.
pub open spec fn close_section(state: BuilderState) -> BuilderState {
    match state.current {
        None => state,
        Some(section) => BuilderState {
            closed: state.closed.push(section),
            current: None,
            ..state
        },
    }
}

/// Whether `name` is the label that is open.
pub open spec fn label_is_open(state: BuilderState, name: Seq<char>) -> bool {
    match state.open_label {
        Some((label, _)) => label == name,
        None => false,
    }
}

/// The state after one more token.
///
/// An instruction goes under the open label, or before the first label of
/// the current section where none is open. `global` adds to the exported
/// labels of the current section. `section` closes the open label and the
/// current section; `.text` becomes current again, any other name opens a
/// new section. A label closes the open label. Where it names that label
/// it goes on under the same group; any other label opens a new group of
/// its own.
pub open spec fn step(state: BuilderState, token: LineTokenView) -> BuilderState {
    match token {
        LineTokenView::Invalid | LineTokenView::Empty | LineTokenView::Comment => state,
        LineTokenView::Instruction(instruction) => match state.open_label {
            Some((label, instructions)) => BuilderState {
                open_label: Some((label, instructions.push(instruction))),
                ..state
            },
            None => match state.current {
                Some(section) => BuilderState {
                    current: Some(with_default(section, instruction)),
                    ..state
                },
                None => BuilderState { text: with_default(state.text, instruction), ..state },
            },
        },
        LineTokenView::Directive(DirectiveView::Global(labels)) => match state.current {
            Some(section) => BuilderState { current: Some(with_globals(section, labels)), ..state },
            None => BuilderState { text: with_globals(state.text, labels), ..state },
        },
        LineTokenView::Directive(DirectiveView::Section(name)) => {
            let left = close_section(flush_label(state));
            if name == text_name() {
                left
            } else {
                BuilderState { current: Some(empty_section(name)), ..left }
            }
        },
        LineTokenView::Label(name) => {
            let flushed = flush_label(state);
            if label_is_open(state, name) {
                BuilderState { open_label: Some((name, Seq::empty())), ..flushed }
            } else {
                open_group(flushed, name)
            }
        },
    }
}

/// The state after all of `tokens`.
pub open spec fn run(tokens: Seq<LineTokenView>) -> BuilderState
    decreases tokens.len(),
{
    if tokens.len() == 0 {
        initial_state()
    } else {
        step(run(tokens.drop_last()), tokens.last())
    }
}

/// The sections of a final state: the closed ones, then the current one,
/// then `.text`.
pub open spec fn finish(state: BuilderState) -> Seq<SectionNodeView> {
    let last = close_section(flush_label(state));
    last.closed.push(last.text)
}

/// The sections that `tokens` build.
pub open spec fn build_spec(tokens: Seq<LineTokenView>) -> Seq<SectionNodeView> {
    finish(run(tokens))
}

/// Whether no token of the stream is `Invalid`.
pub open spec fn no_invalid(tokens: Seq<LineTokenView>) -> bool {
    forall|i: int| 0 <= i < tokens.len() ==> !(#[trigger] tokens[i] is Invalid)
}

/// How many `section` directives of `tokens` name a section other than `.text`.
pub open spec fn opened_sections(tokens: Seq<LineTokenView>) -> nat
    decreases tokens.len(),
{
    if tokens.len() == 0 {
        0
    } else {
        let before = opened_sections(tokens.drop_last());
        match tokens.last() {
            LineTokenView::Directive(DirectiveView::Section(name)) => if name == text_name() {
                before
            } else {
                before + 1
            },
            _ => before,
        }
    }
}

/// Throughout a run `.text` keeps its name and `_start` as its first
/// exported label, and the closed and current sections are as many as the
/// directives that opened them.
pub proof fn lemma_run_invariant(tokens: Seq<LineTokenView>)
    ensures
        run(tokens).text.name == text_name(),
        run(tokens).text.global_labels.len() >= 1,
        run(tokens).text.global_labels[0] == start_label(),
        run(tokens).closed.len() + (if run(tokens).current is Some {
            1nat
        } else {
            0nat
        }) == opened_sections(tokens),
    decreases tokens.len(),
{
    if tokens.len() > 0 {
        lemma_run_invariant(tokens.drop_last());
        let before = run(tokens.drop_last());
        match tokens.last() {
            LineTokenView::Directive(DirectiveView::Global(labels)) => {
                lemma_merge_keeps_known(before.text.global_labels, labels);
            },
            _ => {},
        }
    }
}

/// Merging keeps the known labels where they are.
pub proof fn lemma_merge_keeps_known(known: Seq<Seq<char>>, new: Seq<Seq<char>>)
    ensures
        merge_labels(known, new).len() >= known.len(),
        merge_labels(known, new).take(known.len() as int) == known,
    decreases new.len(),
{
    if new.len() == 0 {
        assert(known.take(known.len() as int) =~= known);
    } else {
        lemma_merge_keeps_known(known, new.drop_last());
        let merged = merge_labels(known, new.drop_last());
        assert(merge_labels(known, new).take(known.len() as int) =~= merged.take(
            known.len() as int,
        ));
    }
}

/// Merging into a list without repetitions gives a list without
/// repetitions that holds every label of both.
pub proof fn lemma_merge_no_duplicates(known: Seq<Seq<char>>, new: Seq<Seq<char>>)
    requires
        known.no_duplicates(),
    ensures
        merge_labels(known, new).no_duplicates(),
        forall|label: Seq<char>|
            merge_labels(known, new).contains(label) <==> known.contains(label) || new.contains(
                label,
            ),
    decreases new.len(),
{
    if new.len() > 0 {
        let front = new.drop_last();
        lemma_merge_no_duplicates(known, front);
        let merged = merge_labels(known, front);
        let result = merge_labels(known, new);
        assert forall|label: Seq<char>|
            result.contains(label) <==> known.contains(label) || new.contains(label) by {
            if new.contains(label) {
                let k = choose|k: int| 0 <= k < new.len() && new[k] == label;
                if k < front.len() {
                    assert(front[k] == label);
                    assert(front.contains(label));
                }
            }
            if front.contains(label) {
                let k = choose|k: int| 0 <= k < front.len() && front[k] == label;
                assert(new[k] == label);
            }
            if merged.contains(label) {
                let k = choose|k: int| 0 <= k < merged.len() && merged[k] == label;
                if !merged.contains(new.last()) {
                    assert(result[k] == label);
                }
            }
            if result.contains(label) && !merged.contains(new.last()) {
                let k = choose|k: int| 0 <= k < result.len() && result[k] == label;
                if k < merged.len() {
                    assert(merged[k] == label);
                } else {
                    assert(new[new.len() - 1] == label);
                }
            }
            if label == new.last() {
                assert(new[new.len() - 1] == label);
                if !merged.contains(new.last()) {
                    assert(result[merged.len() as int] == label);
                }
            }
        }
    }
}

/// While a label is open, the last group of the section that is current
/// carries it: the group that the label was opened with.
pub proof fn lemma_open_label_has_group(tokens: Seq<LineTokenView>)
    ensures
        match run(tokens).open_label {
            Some((label, _)) => last_group_is(active_section(run(tokens)), label),
            None => true,
        },
    decreases tokens.len(),
{
    if tokens.len() > 0 {
        lemma_open_label_has_group(tokens.drop_last());
    }
}

/// Closing the open label adds no group: the instructions seen under it
/// join the group that it was opened with, and every other group stays as
/// it is.
pub proof fn lemma_flush_joins_open_group(tokens: Seq<LineTokenView>)
    requires
        run(tokens).open_label is Some,
    ensures
        ({
            let before = active_section(run(tokens)).labeled_instructions;
            let after = active_section(flush_label(run(tokens))).labeled_instructions;
            let open = run(tokens).open_label->0;
            &&& before.len() >= 1
            &&& after.len() == before.len()
            &&& after.drop_last() == before.drop_last()
            &&& after.last() == (open.0, before.last().1 + open.1)
        }),
{
    lemma_open_label_has_group(tokens);
    let before = active_section(run(tokens)).labeled_instructions;
    let after = active_section(flush_label(run(tokens))).labeled_instructions;
    assert(after.drop_last() =~= before.drop_last());
}

/// A label that is named again while it is open keeps its one group: the
/// instructions seen under it so far join that group, and no group is added.
pub proof fn lemma_label_named_again(tokens: Seq<LineTokenView>, name: Seq<char>)
    requires
        label_is_open(run(tokens), name),
    ensures
        ({
            let before = active_section(run(tokens)).labeled_instructions;
            let after = active_section(
                run(tokens.push(LineTokenView::Label(name))),
            ).labeled_instructions;
            let open = run(tokens).open_label->0;
            &&& after.len() == before.len()
            &&& after.drop_last() == before.drop_last()
            &&& after.last() == (name, before.last().1 + open.1)
            &&& run(tokens.push(LineTokenView::Label(name))).open_label == Some(
                (name, Seq::<InstructionView>::empty()),
            )
        }),
{
    let token = LineTokenView::Label(name);
    assert(tokens.push(token).drop_last() =~= tokens);
    lemma_flush_joins_open_group(tokens);
}

/// A label that is not open gets a new group at the end of the current
/// section, behind the groups that are there once the open label is closed,
/// also where one of them carries the same name.
pub proof fn lemma_label_opened(tokens: Seq<LineTokenView>, name: Seq<char>)
    requires
        !label_is_open(run(tokens), name),
    ensures
        ({
            let before = active_section(flush_label(run(tokens))).labeled_instructions;
            let after = active_section(
                run(tokens.push(LineTokenView::Label(name))),
            ).labeled_instructions;
            &&& after == before.push((name, Seq::<InstructionView>::empty()))
            &&& run(tokens.push(LineTokenView::Label(name))).open_label == Some(
                (name, Seq::<InstructionView>::empty()),
            )
        }),
{
    let token = LineTokenView::Label(name);
    assert(tokens.push(token).drop_last() =~= tokens);
}

/// Whether no section of the state exports a label twice.
pub open spec fn globals_unique(state: BuilderState) -> bool {
    &&& state.text.global_labels.no_duplicates()
    &&& state.current matches Some(section) ==> section.global_labels.no_duplicates()
    &&& forall|i: int|
        0 <= i < state.closed.len() ==> (#[trigger] state.closed[i]).global_labels.no_duplicates()
}

/// No section exports a label twice at any point of a run.
pub proof fn lemma_run_globals_unique(tokens: Seq<LineTokenView>)
    ensures
        globals_unique(run(tokens)),
    decreases tokens.len(),
{
    if tokens.len() > 0 {
        lemma_run_globals_unique(tokens.drop_last());
        let before = run(tokens.drop_last());
        match tokens.last() {
            LineTokenView::Directive(DirectiveView::Global(labels)) => {
                match before.current {
                    Some(section) => {
                        lemma_merge_no_duplicates(section.global_labels, labels);
                    },
                    None => {
                        lemma_merge_no_duplicates(before.text.global_labels, labels);
                    },
                }
            },
            _ => {},
        }
    }
}

/// The exported labels of every section built are a set in insertion
/// order: no label occurs twice.
pub proof fn lemma_build_globals_unique(tokens: Seq<LineTokenView>, i: int)
    requires
        0 <= i < build_spec(tokens).len(),
    ensures
        build_spec(tokens)[i].global_labels.no_duplicates(),
{
    lemma_run_globals_unique(tokens);
}

/// The sections built from any tokens end with `.text`, whose first
/// exported label is `_start`; before it stands one section for every
/// `section` directive that names another section.
pub proof fn lemma_text_is_last(tokens: Seq<LineTokenView>)
    ensures
        build_spec(tokens).len() == opened_sections(tokens) + 1,
        build_spec(tokens).last().name == text_name(),
        build_spec(tokens).last().global_labels.len() >= 1,
        build_spec(tokens).last().global_labels[0] == start_label(),
{
    lemma_run_invariant(tokens);
}

/// What an open label holds, if one is open.
pub open spec fn label_view(label: Option<(String, Vec<Instruction>)>) -> Option<
    (Seq<char>, Seq<InstructionView>),
> {
    match label {
        Some((name, instructions)) => Some((name@, instructions_view(instructions@))),
        None => None,
    }
}

/// What a current section holds, if there is one.
pub open spec fn current_view(section: Option<SectionNode>) -> Option<SectionNodeView> {
    match section {
        Some(node) => Some(node@),
        None => None,
    }
}

fn has_label(known: &Vec<String>, label: &String) -> (found: bool)
    ensures
        found == strings_view(known@).contains(label@),
{
    let mut i: usize = 0;
    while i < known.len()
        invariant
            i <= known.len(),
            forall|j: int| 0 <= j < i ==> strings_view(known@)[j] != label@,
        decreases known.len() - i,
    {
        if *label == known[i] {
            assert(strings_view(known@)[i as int] == label@);
            return true;
        }
        i += 1;
    }
    false
}

/// Declares `labels` global in `section_node`: each label that the section
/// does not export yet is added behind those it exports.
pub fn push_global_labels(labels: &Vec<String>, section_node: &mut SectionNode)
    ensures
        final(section_node)@ == with_globals(old(section_node)@, strings_view(labels@)),
{
    let ghost known = section_node@.global_labels;
    let ghost new = strings_view(labels@);
    let mut i: usize = 0;
    while i < labels.len()
        invariant
            i <= labels.len(),
            new == strings_view(labels@),
            section_node@ == (SectionNodeView {
                global_labels: merge_labels(known, new.take(i as int)),
                ..old(section_node)@
            }),
        decreases labels.len() - i,
    {
        let label = &labels[i];
        proof {
            assert(new.take(i + 1).drop_last() =~= new.take(i as int));
            assert(new.take(i + 1).last() == label@);
        }
        if !has_label(&section_node.global_labels, label) {
            let ghost before = section_node.global_labels@;
            section_node.global_labels.push(label.clone());
            assert(strings_view(section_node.global_labels@) =~= strings_view(before).push(
                label@,
            ));
        }
        i += 1;
    }
    assert(new.take(i as int) =~= new);
}

fn extend_instructions(list: &mut Vec<Instruction>, more: &Vec<Instruction>)
    ensures
        instructions_view(final(list)@) == instructions_view(old(list)@) + instructions_view(
            more@,
        ),
{
    let ghost head = instructions_view(list@);
    let ghost tail = instructions_view(more@);
    let mut i: usize = 0;
    assert(instructions_view(list@) =~= head + tail.take(0));
    while i < more.len()
        invariant
            i <= more.len(),
            tail == instructions_view(more@),
            instructions_view(list@) == head + tail.take(i as int),
        decreases more.len() - i,
    {
        let ghost before = list@;
        list.push(more[i].clone());
        proof {
            let target = head + tail.take(i + 1);
            assert(instructions_view(before).len() == head.len() + i);
            assert forall|j: int| 0 <= j < target.len() implies instructions_view(list@)[j]
                == target[j] by {
                if j < before.len() {
                    assert(instructions_view(before)[j] == (head + tail.take(i as int))[j]);
                    assert(list@[j] == before[j]);
                }
            }
            assert(instructions_view(list@) =~= target);
        }
        i += 1;
    }
    assert(tail.take(i as int) =~= tail);
}

fn last_group_has(section_node: &SectionNode, label: &String) -> (has: bool)
    ensures
        has == last_group_is(section_node@, label@),
{
    let count = section_node.labeled_instructions.len();
    if count == 0 {
        return false;
    }
    let last = &section_node.labeled_instructions[count - 1];
    assert(groups_view(section_node.labeled_instructions@).last().0 == last.0@);
    last.0 == *label
}

/// Puts `instructions` under `label` at the end of `section_node`.
///
/// Where the last group of the section carries `label`, the instructions of
/// that group are followed by `instructions` and no group is added.
/// Otherwise one group is appended, also where an earlier group carries the
/// same label.
pub fn push_labeled_instructions(
    label: &String,
    instructions: &Vec<Instruction>,
    section_node: &mut SectionNode,
)
    ensures
        final(section_node)@ == with_group(
            old(section_node)@,
            label@,
            instructions_view(instructions@),
        ),
{
    let ghost before = section_node.labeled_instructions@;
    if last_group_has(section_node, label) {
        match section_node.labeled_instructions.pop() {
            Some((name, mut list)) => {
                let ghost front = section_node.labeled_instructions@;
                extend_instructions(&mut list, instructions);
                section_node.labeled_instructions.push((name, list));
                proof {
                    assert(front =~= before.drop_last());
                    assert(groups_view(front) =~= groups_view(before).drop_last());
                    assert(groups_view(before).last() == (
                        before.last().0@,
                        instructions_view(before.last().1@),
                    ));
                    assert(groups_view(section_node.labeled_instructions@) =~= groups_view(
                        before,
                    ).drop_last().push(
                        (
                            label@,
                            groups_view(before).last().1 + instructions_view(instructions@),
                        ),
                    ));
                }
            },
            None => {},
        }
    } else {
        let copy = clone_instructions(instructions);
        section_node.labeled_instructions.push((label.clone(), copy));
        assert(groups_view(section_node.labeled_instructions@) =~= groups_view(before).push(
            (label@, instructions_view(instructions@)),
        ));
    }
}

/// Gives `section_node` a new group of `label` at its end, which holds no
/// instruction yet.
pub fn open_labeled_group(label: &String, section_node: &mut SectionNode)
    ensures
        final(section_node)@ == with_new_group(old(section_node)@, label@),
{
    let ghost before = section_node.labeled_instructions@;
    let empty: Vec<Instruction> = Vec::new();
    assert(instructions_view(empty@) =~= Seq::empty());
    section_node.labeled_instructions.push((label.clone(), empty));
    assert(groups_view(section_node.labeled_instructions@) =~= groups_view(before).push(
        (label@, Seq::empty()),
    ));
}

/// Closes the open label, if there is one: the instructions under it go to
/// the end of the current section, as `push_labeled_instructions` puts
/// them there. The current section is `text_section_node` where
/// `current_section_node` holds none.
pub fn puah_current_label_with_instructions(
    current_label_with_instructions: &mut Option<(String, Vec<Instruction>)>,
    current_section_node: &mut Option<SectionNode>,
    text_section_node: &mut SectionNode,
)
    ensures
        *final(current_label_with_instructions) is None,
        match label_view(*old(current_label_with_instructions)) {
            None => {
                &&& current_view(*final(current_section_node)) == current_view(
                    *old(current_section_node),
                )
                &&& final(text_section_node)@ == old(text_section_node)@
            },
            Some((label, instructions)) => match current_view(*old(current_section_node)) {
                Some(section) => {
                    &&& current_view(*final(current_section_node)) == Some(
                        with_group(section, label, instructions),
                    )
                    &&& final(text_section_node)@ == old(text_section_node)@
                },
                None => {
                    &&& *final(current_section_node) is None
                    &&& final(text_section_node)@ == with_group(
                        old(text_section_node)@,
                        label,
                        instructions,
                    )
                },
            },
        },
{
    match current_label_with_instructions.take() {
        Some((current_label, instructions)) => {
            match current_section_node.take() {
                Some(mut section_node) => {
                    push_labeled_instructions(&current_label, &instructions, &mut section_node);
                    *current_section_node = Some(section_node);
                },
                None => {
                    push_labeled_instructions(&current_label, &instructions, text_section_node);
                },
            }
        },
        None => {},
    }
}

/// The builder state that the four variables of the builder stand for.
pub open spec fn state_view(
    closed: Seq<SectionNode>,
    text: SectionNode,
    current: Option<SectionNode>,
    open_label: Option<(String, Vec<Instruction>)>,
) -> BuilderState {
    BuilderState {
        closed: sections_view(closed),
        text: text@,
        current: current_view(current),
        open_label: label_view(open_label),
    }
}

fn same_label(open_label: &Option<(String, Vec<Instruction>)>, name: &String) -> (same: bool)
    ensures
        same == match label_view(*open_label) {
            Some((label, _)) => label == name@,
            None => false,
        },
{
    match open_label {
        Some((label, _)) => *label == *name,
        None => false,
    }
}

fn close_current_section(
    section_nodes: &mut Vec<SectionNode>,
    current_section_node: &mut Option<SectionNode>,
)
    ensures
        *final(current_section_node) is None,
        sections_view(final(section_nodes)@) == match current_view(*old(current_section_node)) {
            Some(section) => sections_view(old(section_nodes)@).push(section),
            None => sections_view(old(section_nodes)@),
        },
{
    match current_section_node.take() {
        Some(section_node) => {
            section_nodes.push(section_node);
            assert(sections_view(section_nodes@) =~= sections_view(old(section_nodes)@).push(
                section_node@,
            ));
        },
        None => {},
    }
}

fn push_instruction(
    instruction: &Instruction,
    current_label_with_instructions: &mut Option<(String, Vec<Instruction>)>,
    current_section_node: &mut Option<SectionNode>,
    text_section_node: &mut SectionNode,
)
    ensures
        state_view(
            Seq::empty(),
            *final(text_section_node),
            *final(current_section_node),
            *final(current_label_with_instructions),
        ) == step(
            state_view(
                Seq::empty(),
                *old(text_section_node),
                *old(current_section_node),
                *old(current_label_with_instructions),
            ),
            LineTokenView::Instruction(instruction@),
        ),
{
    match current_label_with_instructions.take() {
        Some((label, mut instructions)) => {
            let ghost before = instructions@;
            instructions.push(instruction.clone());
            assert(instructions_view(instructions@) =~= instructions_view(before).push(
                instruction@,
            ));
            *current_label_with_instructions = Some((label, instructions));
        },
        None => {
            match current_section_node.take() {
                Some(mut section_node) => {
                    let ghost before = section_node.default_instructions@;
                    section_node.default_instructions.push(instruction.clone());
                    assert(instructions_view(section_node.default_instructions@)
                        =~= instructions_view(before).push(instruction@));
                    *current_section_node = Some(section_node);
                },
                None => {
                    let ghost before = text_section_node.default_instructions@;
                    text_section_node.default_instructions.push(instruction.clone());
                    assert(instructions_view(text_section_node.default_instructions@)
                        =~= instructions_view(before).push(instruction@));
                },
            }
        },
    }
}

/// Builds the sections of a program from its tokens.
///
/// The sections that `section` directives opened come first, in the order
/// of the directives, one for every directive that names a section other
/// than `.text`; `.text` comes last.
pub fn build_sections(tokens: &Vec<LineToken>) -> (section_nodes: Vec<SectionNode>)
    requires
        no_invalid(tokens_view(tokens@)),
    ensures
        sections_view(section_nodes@) == build_spec(tokens_view(tokens@)),
        section_nodes@.len() >= 1,
        section_nodes@.last()@.name == text_name(),
{
    let ghost all = tokens_view(tokens@);
    let mut section_nodes: Vec<SectionNode> = Vec::new();
    let mut text_section_node = SectionNode::new(".text".to_owned());
    text_section_node.global_labels.push("_start".to_owned());
    let mut current_section_node: Option<SectionNode> = None;
    let mut current_label_with_instructions: Option<(String, Vec<Instruction>)> = None;
    proof {
        reveal_strlit(".text");
        reveal_strlit("_start");
        assert(".text"@ =~= text_name());
        assert("_start"@ =~= start_label());
        assert(text_section_node@.global_labels =~= seq![start_label()]);
        assert(sections_view(section_nodes@) =~= Seq::empty());
        assert(all.take(0) =~= Seq::empty());
    }
    let mut i: usize = 0;
    while i < tokens.len()
        invariant
            i <= tokens.len(),
            all == tokens_view(tokens@),
            no_invalid(all),
            ".text"@ == text_name(),
            state_view(
                section_nodes@,
                text_section_node,
                current_section_node,
                current_label_with_instructions,
            ) == run(all.take(i as int)),
        decreases tokens.len() - i,
    {
        let ghost before = run(all.take(i as int));
        proof {
            assert(all.take(i + 1).drop_last() =~= all.take(i as int));
            assert(all.take(i + 1).last() == tokens@[i as int]@);
            assert(run(all.take(i + 1)) == step(before, tokens@[i as int]@));
        }
        match &tokens[i] {
            LineToken::Invalid => {
                assert(all[i as int] is Invalid);
            },
            LineToken::Empty => {},
            LineToken::Comment => {},
            LineToken::Instruction(ins) => {
                push_instruction(
                    ins,
                    &mut current_label_with_instructions,
                    &mut current_section_node,
                    &mut text_section_node,
                );
            },
            LineToken::Directive(dir) => match dir {
                Directive::Global(labels) => {
                    match current_section_node.take() {
                        Some(mut section_node) => {
                            push_global_labels(labels, &mut section_node);
                            current_section_node = Some(section_node);
                        },
                        None => {
                            push_global_labels(labels, &mut text_section_node);
                        },
                    }
                },
                Directive::Section(section_name) => {
                    puah_current_label_with_instructions(
                        &mut current_label_with_instructions,
                        &mut current_section_node,
                        &mut text_section_node,
                    );
                    close_current_section(&mut section_nodes, &mut current_section_node);
                    if !(*section_name == ".text".to_owned()) {
                        current_section_node = Some(SectionNode::new(section_name.clone()));
                    }
                },
            },
            LineToken::Label(label) => {
                let named_again = same_label(&current_label_with_instructions, label);
                puah_current_label_with_instructions(
                    &mut current_label_with_instructions,
                    &mut current_section_node,
                    &mut text_section_node,
                );
                if !named_again {
                    match current_section_node.take() {
                        Some(mut section_node) => {
                            open_labeled_group(label, &mut section_node);
                            current_section_node = Some(section_node);
                        },
                        None => {
                            open_labeled_group(label, &mut text_section_node);
                        },
                    }
                }
                let empty: Vec<Instruction> = Vec::new();
                assert(instructions_view(empty@) =~= Seq::empty());
                current_label_with_instructions = Some((label.clone(), empty));
            },
        }
        i += 1;
    }
    proof {
        assert(all.take(i as int) =~= all);
        crate::builder::lemma_text_is_last(all);
    }
    puah_current_label_with_instructions(
        &mut current_label_with_instructions,
        &mut current_section_node,
        &mut text_section_node,
    );
    close_current_section(&mut section_nodes, &mut current_section_node);
    let ghost closed = sections_view(section_nodes@);
    section_nodes.push(text_section_node);
    proof {
        assert(sections_view(section_nodes@) =~= closed.push(text_section_node@));
        assert(sections_view(section_nodes@).last() == section_nodes@.last()@);
    }
    section_nodes
}

} // verus!
