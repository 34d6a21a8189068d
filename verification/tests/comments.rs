use cg_clif::common::FunctionCx;
use cg_clif::constant::ConstantCx;
use cg_clif::pretty_clif::{continue_lines, AnyEntity, CommentWriter, EntityKind, Inst};

fn function_cx() -> FunctionCx {
    FunctionCx {
        pointer_size: 8,
        constants_cx: ConstantCx::new(),
        clif_comments: CommentWriter::new("_ZN4main", "Instance(main)", "fn()"),
    }
}

fn value(index: u32) -> AnyEntity {
    AnyEntity { kind: EntityKind::Value, index }
}

#[test]
fn new_writer_has_the_four_opening_comments() {
    let fx = function_cx();
    assert_eq!(
        fx.clif_comments.global_comments,
        vec![
            "symbol _ZN4main".to_string(),
            "instance Instance(main)".to_string(),
            "sig fn()".to_string(),
            String::new(),
        ]
    );
    assert!(fx.clif_comments.entity_comments.is_empty());
    assert!(fx.clif_comments.inst_comments.is_empty());
}

#[test]
fn add_global_comment_appends() {
    let mut fx = function_cx();
    fx.add_global_comment("ssa {}".to_string());
    fx.add_global_comment("second".to_string());
    assert_eq!(fx.clif_comments.global_comments.len(), 6);
    assert_eq!(fx.clif_comments.global_comments[4], "ssa {}");
    assert_eq!(fx.clif_comments.global_comments[5], "second");
}

#[test]
fn add_comment_first_comment_stands_alone() {
    let mut fx = function_cx();
    fx.add_comment(Inst(3), "_3 = &mut _1");
    assert_eq!(fx.clif_comments.inst_comments.len(), 1);
    assert_eq!(fx.clif_comments.inst_comments[&3], "_3 = &mut _1");
}

#[test]
fn add_comment_second_comment_goes_on_a_new_line() {
    let mut fx = function_cx();
    fx.add_comment(Inst(3), "_3 = &mut _1");
    fx.add_comment(Inst(3), "_4 = _2");
    fx.add_comment(Inst(4), "return");
    assert_eq!(fx.clif_comments.inst_comments.len(), 2);
    assert_eq!(fx.clif_comments.inst_comments[&3], "_3 = &mut _1\n_4 = _2");
    assert_eq!(fx.clif_comments.inst_comments[&4], "return");
}

#[test]
fn add_comment_leaves_the_rest_alone() {
    let mut fx = function_cx();
    fx.add_entity_comment(value(1), "arg");
    fx.add_comment(Inst(1), "nop");
    assert_eq!(fx.clif_comments.global_comments.len(), 4);
    assert_eq!(fx.clif_comments.entity_comments.len(), 1);
    assert_eq!(fx.pointer_size, 8);
}

#[test]
fn add_entity_comment_keeps_kinds_apart() {
    let mut fx = function_cx();
    fx.add_entity_comment(value(1), "a value");
    fx.add_entity_comment(AnyEntity { kind: EntityKind::StackSlot, index: 1 }, "a slot");
    fx.add_entity_comment(value(1), "again");
    assert_eq!(fx.clif_comments.entity_comments.len(), 2);
    assert_eq!(fx.clif_comments.entity_comments[&value(1).key()], "a value\nagain");
    assert_eq!(
        fx.clif_comments.entity_comments[&AnyEntity { kind: EntityKind::StackSlot, index: 1 }
            .key()],
        "a slot"
    );
}

#[test]
fn entity_keys_differ() {
    assert_eq!(AnyEntity { kind: EntityKind::Function, index: 0 }.key(), 0);
    assert_eq!(AnyEntity { kind: EntityKind::Block, index: 2 }.key(), 0x1_0000_0002);
    assert_eq!(AnyEntity { kind: EntityKind::Inst, index: 2 }.key(), 0x2_0000_0002);
    assert_eq!(AnyEntity { kind: EntityKind::StackLimit, index: 0 }.key(), 0xe_0000_0000);
    assert_ne!(value(5).key(), AnyEntity { kind: EntityKind::Block, index: 5 }.key());
}

#[test]
fn continue_lines_marks_every_new_line() {
    assert_eq!(continue_lines(""), "");
    assert_eq!(continue_lines("one line"), "one line");
    assert_eq!(continue_lines("a\nb"), "a\n; b");
    assert_eq!(continue_lines("a\n\nb\n"), "a\n; \n; b\n; ");
    assert_eq!(continue_lines("h\u{e9}\n\u{4e16}"), "h\u{e9}\n; \u{4e16}");
}

#[test]
fn preamble_prints_global_comments() {
    let mut fx = function_cx();
    fx.add_global_comment("last".to_string());
    assert_eq!(
        fx.clif_comments.preamble(),
        "; symbol _ZN4main\n; instance Instance(main)\n; sig fn()\n\n; last\n\n"
    );
}

#[test]
fn preamble_of_no_comments_is_empty() {
    let writer = CommentWriter {
        global_comments: Vec::new(),
        entity_comments: Default::default(),
        inst_comments: Default::default(),
    };
    assert_eq!(writer.preamble(), "");
}

#[test]
fn entity_definition_suffix_with_and_without_comment() {
    let mut fx = function_cx();
    assert_eq!(fx.clif_comments.entity_definition_suffix(value(0)), "\n");
    fx.add_entity_comment(value(0), "_1: IsNotEmpty");
    fx.add_entity_comment(value(0), "size=0");
    assert_eq!(
        fx.clif_comments.entity_definition_suffix(value(0)),
        " ; _1: IsNotEmpty\n; size=0\n"
    );
    assert_eq!(fx.clif_comments.entity_definition_suffix(value(1)), "\n");
}

#[test]
fn instruction_suffix_with_and_without_comment() {
    let mut fx = function_cx();
    assert_eq!(fx.clif_comments.instruction_suffix(Inst(0)), "");
    fx.add_comment(Inst(0), "_3 = &mut _1");
    fx.add_comment(Inst(0), "_4 = _2");
    assert_eq!(fx.clif_comments.instruction_suffix(Inst(0)), "; _3 = &mut _1\n; _4 = _2\n");
}
