//! Comments on a function's intermediate representation, and the text that
//! they are printed as.
//!
//! Global comments are printed above the function, one to a line behind `; `.
//! A comment on an entity follows the entity's definition on the same line, and
//! a comment on an instruction follows the instruction on a line of its own.

use crate::common::FunctionCx;
use std::collections::HashMap;
use vstd::prelude::*;
use vstd::string::StringExecFns;
use vstd::string::StrSliceExecFns;

verus! {

broadcast use vstd::std_specs::hash::group_hash_axioms;

/// An instruction of the function, by its index.
#[derive(Clone, Copy, Debug, PartialEq, Eq, Structural)]
pub struct Inst(pub u32);

/// The kinds of entities that a function is made of.
#[derive(Clone, Copy, Debug, PartialEq, Eq, Structural)]
pub enum EntityKind {
    Function,
    Block,
    Inst,
    Value,
    StackSlot,
    DynamicStackSlot,
    DynamicType,
    GlobalValue,
    MemoryType,
    JumpTable,
    Constant,
    FuncRef,
    SigRef,
    ExceptionTable,
    StackLimit,
}

/// An entity of the function: its kind and its index among those of its kind.
#[derive(Clone, Copy, Debug, PartialEq, Eq, Structural)]
pub struct AnyEntity {
    pub kind: EntityKind,
    pub index: u32,
}

/// The comments attached to one function's intermediate representation.
pub struct CommentWriter {
    pub global_comments: Vec<String>,
    /// The comments on entities, by the key of the entity.
    pub entity_comments: HashMap<u64, String>,
    /// The comments on instructions, by the index of the instruction.
    pub inst_comments: HashMap<u32, String>,
}

/// What `existing` becomes when `comment` is attached after it: the comment
/// alone, or the existing text, a line break and the comment.
pub open spec fn appended_comment(existing: Option<Seq<char>>, comment: Seq<char>) -> Seq<char> {
    match existing {
        Some(text) => text + seq!['\n'] + comment,
        None => comment,
    }
}

/// `text` with `; ` behind each of its line breaks, so that every line of a
/// comment that is printed behind `; ` is a comment line.
pub open spec fn continued(text: Seq<char>) -> Seq<char>
    decreases text.len(),
{
    if text.len() == 0 {
        Seq::empty()
    } else if text.last() == '\n' {
        continued(text.drop_last()) + seq!['\n', ';', ' ']
    } else {
        continued(text.drop_last()).push(text.last())
    }
}

/// The line that a global comment is printed as: `; ` and the comment, or an
/// empty line for an empty comment.
pub open spec fn global_line(comment: Seq<char>) -> Seq<char> {
    if comment.len() == 0 {
        seq!['\n']
    } else {
        seq![';', ' '] + comment + seq!['\n']
    }
}

/// The lines that global comments are printed as.
pub open spec fn global_lines(comments: Seq<Seq<char>>) -> Seq<char>
    decreases comments.len(),
{
    if comments.len() == 0 {
        Seq::empty()
    } else {
        global_lines(comments.drop_last()) + global_line(comments.last())
    }
}

/// What is printed above the function: the global comments, and an empty line
/// behind them if there are any.
pub open spec fn preamble_text(comments: Seq<Seq<char>>) -> Seq<char> {
    if comments.len() == 0 {
        Seq::empty()
    } else {
        global_lines(comments) + seq!['\n']
    }
}

/// What ends the line of an entity's definition: its comment behind ` ; `, if
/// it has one, and the line break.
pub open spec fn entity_suffix(comment: Option<Seq<char>>) -> Seq<char> {
    match comment {
        Some(text) => seq![' ', ';', ' '] + continued(text) + seq!['\n'],
        None => seq!['\n'],
    }
}

/// What follows an instruction: its comment on a line of its own behind `; `,
/// if it has one.
pub open spec fn inst_suffix(comment: Option<Seq<char>>) -> Seq<char> {
    match comment {
        Some(text) => seq![';', ' '] + continued(text) + seq!['\n'],
        None => Seq::empty(),
    }
}

impl EntityKind {
    /// The number of the kind.
    pub open spec fn spec_number(self) -> u64 {
        match self {
            EntityKind::Function => 0,
            EntityKind::Block => 1,
            EntityKind::Inst => 2,
            EntityKind::Value => 3,
            EntityKind::StackSlot => 4,
            EntityKind::DynamicStackSlot => 5,
            EntityKind::DynamicType => 6,
            EntityKind::GlobalValue => 7,
            EntityKind::MemoryType => 8,
            EntityKind::JumpTable => 9,
            EntityKind::Constant => 10,
            EntityKind::FuncRef => 11,
            EntityKind::SigRef => 12,
            EntityKind::ExceptionTable => 13,
            EntityKind::StackLimit => 14,
        }
    }

    /// The number of the kind.
    #[verifier::when_used_as_spec(spec_number)]
    pub fn number(self) -> (n: u64)
        ensures
            n == self.spec_number(),
    {
        match self {
            EntityKind::Function => 0,
            EntityKind::Block => 1,
            EntityKind::Inst => 2,
            EntityKind::Value => 3,
            EntityKind::StackSlot => 4,
            EntityKind::DynamicStackSlot => 5,
            EntityKind::DynamicType => 6,
            EntityKind::GlobalValue => 7,
            EntityKind::MemoryType => 8,
            EntityKind::JumpTable => 9,
            EntityKind::Constant => 10,
            EntityKind::FuncRef => 11,
            EntityKind::SigRef => 12,
            EntityKind::ExceptionTable => 13,
            EntityKind::StackLimit => 14,
        }
    }
}

impl AnyEntity {
    /// The entity as one number: the kind above the index.
    pub open spec fn spec_key(self) -> u64 {
        (self.kind.spec_number() * 0x1_0000_0000 + self.index as u64) as u64
    }

    /// The entity as one number: the kind above the index.
    #[verifier::when_used_as_spec(spec_key)]
    pub fn key(self) -> (k: u64)
        ensures
            k == self.spec_key(),
    {
        self.kind.number() * 0x1_0000_0000 + self.index as u64
    }

    /// Two entities with the same key are the same entity.
    pub proof fn lemma_key_injective(a: AnyEntity, b: AnyEntity)
        requires
            a.spec_key() == b.spec_key(),
        ensures
            a == b,
    {
    }
}

/// The text behind `existing` with `comment` attached.
fn attach(existing: Option<String>, comment: &str) -> (text: String)
    ensures
        text@ == appended_comment(
            match existing {
                Some(before) => Some(before@),
                None => None,
            },
            comment@,
        ),
{
    match existing {
        Some(mut text) => {
            proof {
                reveal_strlit("\n");
                assert("\n"@ =~= seq!['\n']);
            }
            text.append("\n");
            text.append(comment);
            text
        },
        None => String::from_str(comment),
    }
}

/// `text` with `; ` behind each of its line breaks.
pub fn continue_lines(text: &str) -> (result: String)
    ensures
        result@ == continued(text@),
{
    let len = text.unicode_len();
    let mut result = String::new();
    let mut i: usize = 0;
    proof {
        reveal_strlit("\n; ");
        assert(text@.take(0) =~= Seq::<char>::empty());
    }
    while i < len
        invariant
            i <= len,
            len == text@.len(),
            "\n; "@ == seq!['\n', ';', ' '],
            result@ == continued(text@.take(i as int)),
        decreases len - i,
    {
        let ghost prefix = text@.take(i as int);
        let ghost longer = text@.take(i + 1);
        proof {
            assert(longer.drop_last() =~= prefix);
            assert(longer.last() == text@[i as int]);
        }
        if text.get_char(i) == '\n' {
            result.append("\n; ");
        } else {
            result.append(text.substring_char(i, i + 1));
            assert(text@.subrange(i as int, i + 1) =~= seq![text@[i as int]]);
            assert(result@ =~= continued(prefix).push(text@[i as int]));
        }
        i = i + 1;
    }
    proof {
        assert(text@.take(len as int) =~= text@);
    }
    result
}

impl CommentWriter {
    /// The global comments, in the order they were added.
    pub open spec fn globals(&self) -> Seq<Seq<char>> {
        Seq::new(self.global_comments@.len(), |i: int| self.global_comments@[i]@)
    }

    /// The comment attached to an entity, if there is one.
    pub open spec fn entity_comment(&self, entity: AnyEntity) -> Option<Seq<char>> {
        if self.entity_comments@.contains_key(entity.spec_key()) {
            Some(self.entity_comments@[entity.spec_key()]@)
        } else {
            None
        }
    }

    /// The comment attached to an instruction, if there is one.
    pub open spec fn inst_comment(&self, inst: Inst) -> Option<Seq<char>> {
        if self.inst_comments@.contains_key(inst.0) {
            Some(self.inst_comments@[inst.0]@)
        } else {
            None
        }
    }

    /// The comments that every function starts with: its symbol, its instance,
    /// its signature, and an empty line.
    pub fn new(symbol_name: &str, instance: &str, sig: &str) -> (writer: CommentWriter)
        ensures
            writer.globals() == seq![
                "symbol "@ + symbol_name@,
                "instance "@ + instance@,
                "sig "@ + sig@,
                Seq::<char>::empty(),
            ],
            forall|entity: AnyEntity| writer.entity_comment(entity) is None,
            forall|inst: Inst| writer.inst_comment(inst) is None,
    {
        let mut global_comments: Vec<String> = Vec::new();
        global_comments.push(String::from_str("symbol ").concat(symbol_name));
        global_comments.push(String::from_str("instance ").concat(instance));
        global_comments.push(String::from_str("sig ").concat(sig));
        global_comments.push(String::new());
        let writer = CommentWriter {
            global_comments,
            entity_comments: HashMap::new(),
            inst_comments: HashMap::new(),
        };
        assert(writer.globals() =~= seq![
            "symbol "@ + symbol_name@,
            "instance "@ + instance@,
            "sig "@ + sig@,
            Seq::<char>::empty(),
        ]);
        writer
    }

    /// What is printed above the function.
    pub fn preamble(&self) -> (text: String)
        ensures
            text@ == preamble_text(self.globals()),
    {
        let mut text = String::new();
        let mut i: usize = 0;
        proof {
            reveal_strlit("\n");
            reveal_strlit("; ");
            assert(self.globals().take(0) =~= Seq::<Seq<char>>::empty());
        }
        while i < self.global_comments.len()
            invariant
                i <= self.global_comments@.len(),
                "\n"@ == seq!['\n'],
                "; "@ == seq![';', ' '],
                text@ == global_lines(self.globals().take(i as int)),
            decreases self.global_comments@.len() - i,
        {
            let ghost before = text@;
            let ghost prefix = self.globals().take(i as int);
            let ghost longer = self.globals().take(i + 1);
            proof {
                assert(longer.drop_last() =~= prefix);
                assert(longer.last() == self.global_comments@[i as int]@);
            }
            let comment = self.global_comments[i].as_str();
            if comment.unicode_len() != 0 {
                text.append("; ");
                text.append(comment);
                text.append("\n");
                assert(text@ =~= before + global_line(comment@));
            } else {
                text.append("\n");
                assert(text@ =~= before + global_line(comment@));
            }
            i = i + 1;
        }
        proof {
            assert(self.globals().take(self.global_comments@.len() as int) =~= self.globals());
        }
        if self.global_comments.len() != 0 {
            text.append("\n");
        }
        text
    }

    /// What ends the line of an entity's definition.
    pub fn entity_definition_suffix(&self, entity: AnyEntity) -> (text: String)
        ensures
            text@ == entity_suffix(self.entity_comment(entity)),
    {
        proof {
            reveal_strlit("\n");
            reveal_strlit(" ; ");
        }
        let key = entity.key();
        match self.entity_comments.get(&key) {
            Some(comment) => {
                let mut text = String::from_str(" ; ");
                let lines = continue_lines(comment.as_str());
                text.append(lines.as_str());
                text.append("\n");
                assert(text@ =~= entity_suffix(self.entity_comment(entity)));
                text
            },
            None => {
                let text = String::from_str("\n");
                assert(text@ =~= entity_suffix(self.entity_comment(entity)));
                text
            },
        }
    }

    /// What follows an instruction.
    pub fn instruction_suffix(&self, inst: Inst) -> (text: String)
        ensures
            text@ == inst_suffix(self.inst_comment(inst)),
    {
        proof {
            reveal_strlit("\n");
            reveal_strlit("; ");
        }
        let key = inst.0;
        match self.inst_comments.get(&key) {
            Some(comment) => {
                let mut text = String::from_str("; ");
                let lines = continue_lines(comment.as_str());
                text.append(lines.as_str());
                text.append("\n");
                assert(text@ =~= inst_suffix(self.inst_comment(inst)));
                text
            },
            None => String::new(),
        }
    }
}

impl FunctionCx {
    /// Adds a comment that is printed above the function.
    pub fn add_global_comment(&mut self, comment: String)
        ensures
            final(self).clif_comments.globals() == old(self).clif_comments.globals().push(comment@),
            final(self).clif_comments.entity_comments == old(self).clif_comments.entity_comments,
            final(self).clif_comments.inst_comments == old(self).clif_comments.inst_comments,
            final(self).constants_cx == old(self).constants_cx,
            final(self).pointer_size == old(self).pointer_size,
    {
        self.clif_comments.global_comments.push(comment);
        assert(self.clif_comments.globals() =~= old(self).clif_comments.globals().push(comment@));
    }

    /// Attaches a comment to an entity; a second comment on the same entity
    /// goes on a line of its own after the first.
    pub fn add_entity_comment(&mut self, entity: AnyEntity, comment: &str)
        ensures
            final(self).clif_comments.entity_comment(entity) == Some(
                appended_comment(old(self).clif_comments.entity_comment(entity), comment@),
            ),
            forall|other: AnyEntity|
                other != entity ==> final(self).clif_comments.entity_comment(other) == old(
                    self,
                ).clif_comments.entity_comment(other),
            final(self).clif_comments.global_comments == old(self).clif_comments.global_comments,
            final(self).clif_comments.inst_comments == old(self).clif_comments.inst_comments,
            final(self).constants_cx == old(self).constants_cx,
            final(self).pointer_size == old(self).pointer_size,
    {
        let key = entity.key();
        let existing = self.clif_comments.entity_comments.remove(&key);
        let text = attach(existing, comment);
        self.clif_comments.entity_comments.insert(key, text);
        proof {
            assert forall|other: AnyEntity| other != entity implies self.clif_comments.entity_comment(
                other,
            ) == old(self).clif_comments.entity_comment(other) by {
                if other.spec_key() == entity.spec_key() {
                    AnyEntity::lemma_key_injective(other, entity);
                }
            }
        }
    }

    /// Attaches a comment to an instruction; a second comment on the same
    /// instruction goes on a line of its own after the first.
    pub fn add_comment(&mut self, inst: Inst, comment: &str)
        ensures
            final(self).clif_comments.inst_comment(inst) == Some(
                appended_comment(old(self).clif_comments.inst_comment(inst), comment@),
            ),
            forall|other: Inst|
                other != inst ==> final(self).clif_comments.inst_comment(other) == old(
                    self,
                ).clif_comments.inst_comment(other),
            final(self).clif_comments.global_comments == old(self).clif_comments.global_comments,
            final(self).clif_comments.entity_comments == old(self).clif_comments.entity_comments,
            final(self).constants_cx == old(self).constants_cx,
            final(self).pointer_size == old(self).pointer_size,
    {
        let key: u32 = inst.0;
        let existing = self.clif_comments.inst_comments.remove(&key);
        let text = attach(existing, comment);
        self.clif_comments.inst_comments.insert(key, text);
    }
}

} // verus!
