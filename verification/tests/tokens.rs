//! How tokens and sets of supertypes read.
use droidsaw_dex::opcodes::Opcode;
use droidsaw_dex::spr::supertypes::supertype_set_token;
use droidsaw_dex::spr::token::op_class;
use droidsaw_dex::spr::{Branch, Level, Token};

fn token(op: &str) -> Token {
    Token { op: op.to_string(), regs: Vec::new(), lit: None, branch: None, pool: None }
}

#[test]
fn tokens_read_from_operation_to_reference() {
    assert_eq!(token("nop").to_text(), "nop");
    let full = Token {
        regs: vec![0, 15],
        lit: Some(-3),
        branch: Some(Branch::Absolute(42)),
        pool: Some("LFoo;".to_string()),
        ..token("op")
    };
    assert_eq!(full.to_text(), "op v0 v15 #-3 @42 LFoo;");
    let directions =
        [(Branch::Forward, "along"), (Branch::Backward, "back"), (Branch::Zero, "zero")];
    for (b, word) in directions {
        let t = Token { branch: Some(b), ..token("goto") };
        assert_eq!(t.to_text(), format!("goto {word}"));
    }
    let least = Token { lit: Some(i64::MIN), ..token("const-wide") };
    assert_eq!(least.to_text(), "const-wide #-9223372036854775808");
}

#[test]
fn encodings_of_one_operation_share_a_spelling() {
    for (op, concrete, shared) in [
        (Opcode::ConstWideHigh16, "const-wide/high16", "const-wide"),
        (Opcode::AddInt2Addr, "add-int/2addr", "add-int"),
        (Opcode::AddIntLit8, "add-int/lit8", "add-int"),
        (Opcode::Goto, "goto", "goto"),
    ] {
        assert_eq!(op_class(op, Level::Bc), concrete);
        assert_eq!(op_class(op, Level::Ar), shared);
        assert_eq!(op_class(op, Level::Nr), shared);
    }
}

#[test]
fn sets_of_supertypes_are_joined() {
    let s = |t: &str| t.to_string();
    assert_eq!(supertype_set_token(&[]), "");
    assert_eq!(supertype_set_token(&[s("Ljava/lang/Object;")]), "Ljava/lang/Object;");
    assert_eq!(supertype_set_token(&[s("La;"), s("Lb;"), s("Lc;")]), "La;+Lb;+Lc;");
}
