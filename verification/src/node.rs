//! The section model that the tokens of a program are assembled into.

use crate::parse::{Instruction, InstructionView};
use crate::text::{clone_strings, strings_view};
use vstd::prelude::*;

verus! {

/// One section of the program: its name, the labels it exports, the code
/// before its first label, and then each label with the code under it.
#[derive(Debug, PartialEq, Eq)]
pub struct SectionNode {
    pub name: String,
    pub global_labels: Vec<String>,
    pub default_instructions: Vec<Instruction>,
    pub labeled_instructions: Vec<(String, Vec<Instruction>)>,
}

/// What a [`SectionNode`] holds.
pub struct SectionNodeView {
    pub name: Seq<char>,
    pub global_labels: Seq<Seq<char>>,
    pub default_instructions: Seq<InstructionView>,
    pub labeled_instructions: Seq<(Seq<char>, Seq<InstructionView>)>,
}

/// What a sequence of instructions holds.
pub open spec fn instructions_view(instructions: Seq<Instruction>) -> Seq<InstructionView> {
    Seq::new(instructions.len(), |i: int| instructions[i]@)
}

/// What a sequence of labelled groups of instructions holds.
pub open spec fn groups_view(groups: Seq<(String, Vec<Instruction>)>) -> Seq<
    (Seq<char>, Seq<InstructionView>),
> {
    Seq::new(groups.len(), |i: int| (groups[i].0@, instructions_view(groups[i].1@)))
}

/// What a sequence of section nodes holds.
pub open spec fn sections_view(sections: Seq<SectionNode>) -> Seq<SectionNodeView> {
    Seq::new(sections.len(), |i: int| sections[i]@)
}

/// A section that has a name and nothing else.
pub open spec fn empty_section(name: Seq<char>) -> SectionNodeView {
    SectionNodeView {
        name,
        global_labels: Seq::empty(),
        default_instructions: Seq::empty(),
        labeled_instructions: Seq::empty(),
    }
}

impl View for SectionNode {
    type V = SectionNodeView;

    open spec fn view(&self) -> SectionNodeView {
        SectionNodeView {
            name: self.name@,
            global_labels: strings_view(self.global_labels@),
            default_instructions: instructions_view(self.default_instructions@),
            labeled_instructions: groups_view(self.labeled_instructions@),
        }
    }
}

impl SectionNode {
    /// A section named `name` without labels or code.
    pub fn new(name: String) -> (node: Self)
        ensures
            node@ == empty_section(name@),
    {
        let node = Self {
            name,
            global_labels: Vec::new(),
            default_instructions: Vec::new(),
            labeled_instructions: Vec::new(),
        };
        assert(node@.global_labels =~= Seq::empty());
        assert(node@.default_instructions =~= Seq::empty());
        assert(node@.labeled_instructions =~= Seq::empty());
        node
    }
}

/// A copy of `instructions`.
pub fn clone_instructions(instructions: &Vec<Instruction>) -> (copy: Vec<Instruction>)
    ensures
        instructions_view(copy@) == instructions_view(instructions@),
{
    let mut copy: Vec<Instruction> = Vec::new();
    let mut i: usize = 0;
    while i < instructions.len()
        invariant
            i <= instructions.len(),
            instructions_view(copy@) == instructions_view(instructions@).take(i as int),
        decreases instructions.len() - i,
    {
        let ghost before = copy@;
        copy.push(instructions[i].clone());
        proof {
            let target = instructions_view(instructions@).take(i + 1);
            assert(instructions_view(before).len() == i);
            assert forall|j: int| 0 <= j < target.len() implies instructions_view(copy@)[j]
                == target[j] by {
                if j < i {
                    assert(instructions_view(before)[j] == instructions_view(instructions@).take(
                        i as int,
                    )[j]);
                    assert(copy@[j] == before[j]);
                }
            }
            assert(instructions_view(copy@) =~= target);
        }
        i += 1;
    }
    assert(instructions_view(instructions@).take(i as int) =~= instructions_view(instructions@));
    copy
}

impl Clone for SectionNode {
    fn clone(&self) -> (copy: Self)
        ensures
            copy@ == self@,
    {
        let mut groups: Vec<(String, Vec<Instruction>)> = Vec::new();
        let mut i: usize = 0;
        while i < self.labeled_instructions.len()
            invariant
                i <= self.labeled_instructions.len(),
                groups_view(groups@) == groups_view(self.labeled_instructions@).take(i as int),
            decreases self.labeled_instructions.len() - i,
        {
            let ghost before = groups@;
            let group = &self.labeled_instructions[i];
            groups.push((group.0.clone(), clone_instructions(&group.1)));
            proof {
                let target = groups_view(self.labeled_instructions@).take(i + 1);
                assert(groups_view(before).len() == i);
                assert forall|j: int| 0 <= j < target.len() implies groups_view(groups@)[j]
                    == target[j] by {
                    if j < i {
                        assert(groups_view(before)[j] == groups_view(
                            self.labeled_instructions@,
                        ).take(i as int)[j]);
                        assert(groups@[j] == before[j]);
                    }
                }
                assert(groups_view(groups@) =~= target);
            }
            i += 1;
        }
        assert(groups_view(self.labeled_instructions@).take(i as int) =~= groups_view(
            self.labeled_instructions@,
        ));
        SectionNode {
            name: self.name.clone(),
            global_labels: clone_strings(&self.global_labels),
            default_instructions: clone_instructions(&self.default_instructions),
            labeled_instructions: groups,
        }
    }
}

} // verus!
