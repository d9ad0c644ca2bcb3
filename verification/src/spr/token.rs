//! Tokens for instructions.
use vstd::prelude::*;
use vstd::string::*;

use crate::classes::{class_places, TypeToClassDefMap};
use crate::decode::{CodeItem, CodeItemInvariantViolation, Instruction, PoolIndex};
use crate::dex_file::DexFile;
use crate::ids::{MethodIdx, StringIdx, TypeIdx};
use crate::opcodes::{insn_format, InsnFormat, Opcode};
use crate::spr::supertypes::{joined, nearest_api_supertype_set, supertype_set_token, supertypes};
use crate::text::{chars_of, decimal, push_decimal, push_signed, signed_decimal};

verus! {

/// How much of an instruction a token keeps.
#[derive(Debug, Clone, Copy, PartialEq, Eq, Structural)]
pub enum Level {
    /// Everything, names and branch targets as they are.
    Bc,
    /// No nops, branches by direction only, and one spelling for all encodings of
    /// an operation.
    Ar,
    /// As before, with platform supertypes in place of names.
    Nr,
}

/// Why a method has no tokens.
#[derive(Debug, Clone, Copy, PartialEq, Eq, Structural)]
pub enum Unencodable {
    /// Its instructions were not decoded in step with its bytes.
    DecodeDesync,
}

/// Where an instruction branches to.
#[derive(Debug, Clone, Copy, PartialEq, Eq, Structural)]
pub enum Branch {
    /// To a later address.
    Forward,
    /// To an earlier address.
    Backward,
    /// To itself.
    Zero,
    /// To the given address.
    Absolute(u32),
}

/// An instruction as a token.
#[derive(Debug, Clone, PartialEq, Eq)]
pub struct Token {
    /// The operation.
    pub op: String,
    /// The destination register, if any, and the source registers.
    pub regs: Vec<u16>,
    /// The number that the instruction holds, if it holds one.
    pub lit: Option<i64>,
    pub branch: Option<Branch>,
    /// What the instruction refers to, if it refers to something.
    pub pool: Option<String>,
}

/// An instruction as a token, by content.
#[verifier::ext_equal]
pub struct TokenText {
    pub op: Seq<char>,
    pub regs: Seq<u16>,
    pub lit: Option<i64>,
    pub branch: Option<Branch>,
    pub pool: Option<Seq<char>>,
}

impl View for Token {
    type V = TokenText;

    open spec fn view(&self) -> TokenText {
        TokenText {
            op: self.op@,
            regs: self.regs@,
            lit: self.lit,
            branch: self.branch,
            pool: match self.pool {
                Some(s) => Some(s@),
                None => None,
            },
        }
    }
}

// Text

/// The first `n` registers as text.
pub open spec fn regs_text(regs: Seq<u16>, n: nat) -> Seq<char>
    decreases n,
{
    if n == 0 {
        Seq::empty()
    } else {
        regs_text(regs, (n - 1) as nat) + " v"@ + decimal(regs[n - 1] as nat)
    }
}

/// A branch as text.
pub open spec fn branch_text(b: Option<Branch>) -> Seq<char> {
    match b {
        None => Seq::empty(),
        Some(Branch::Forward) => " along"@,
        Some(Branch::Backward) => " back"@,
        Some(Branch::Zero) => " zero"@,
        Some(Branch::Absolute(a)) => " @"@ + decimal(a as nat),
    }
}

impl TokenText {
    /// The token as text.
    pub open spec fn spelled(self) -> Seq<char> {
        self.op + regs_text(self.regs, self.regs.len()) + (match self.lit {
            Some(n) => " #"@ + signed_decimal(n as int),
            None => Seq::empty(),
        }) + branch_text(self.branch) + (match self.pool {
            Some(p) => " "@ + p,
            None => Seq::empty(),
        })
    }
}

impl Token {
    /// The token as text: the operation, the registers, the number, the branch and
    /// what the instruction refers to.
    pub fn to_text(&self) -> (r: String)
        ensures
            r@ == self@.spelled(),
    {
        let mut s = String::from_str(self.op.as_str());
        let mut i: usize = 0;
        assert(s@ =~= self.op@ + regs_text(self.regs@, 0));
        while i < self.regs.len()
            invariant
                i <= self.regs@.len(),
                s@ == self.op@ + regs_text(self.regs@, i as nat),
            decreases self.regs@.len() - i,
        {
            s.append(" v");
            push_decimal(&mut s, self.regs[i] as u64);
            i = i + 1;
            assert(s@ =~= self.op@ + regs_text(self.regs@, i as nat));
        }
        match self.lit {
            Some(n) => {
                s.append(" #");
                push_signed(&mut s, n);
            },
            None => {},
        }
        match self.branch {
            None => {},
            Some(Branch::Forward) => {
                s.append(" along");
            },
            Some(Branch::Backward) => {
                s.append(" back");
            },
            Some(Branch::Zero) => {
                s.append(" zero");
            },
            Some(Branch::Absolute(a)) => {
                s.append(" @");
                push_decimal(&mut s, a as u64);
            },
        }
        match &self.pool {
            Some(p) => {
                s.append(" ");
                s.append(p.as_str());
            },
            None => {},
        }
        assert(s@ =~= self@.spelled());
        s
    }
}

// The operation

/// The part of `s` from position `i` on that comes before a slash starts there; its
/// end.
pub open spec fn slash_from(s: Seq<char>, i: int) -> int
    decreases s.len() - i,
{
    if i < 0 || i >= s.len() || s[i] == '/' {
        i
    } else {
        slash_from(s, i + 1)
    }
}

/// The part of `s` before its first slash.
pub open spec fn before_slash(s: Seq<char>) -> Seq<char> {
    s.take(slash_from(s, 0))
}

/// The operation as it is spelled at a level: without what follows a slash, which
/// tells encodings of one operation apart, but for the most concrete level.
pub open spec fn op_text(op: Opcode, level: Level) -> Seq<char> {
    if level is Bc {
        op.spelling()
    } else {
        before_slash(op.spelling())
    }
}

/// The operation as it is spelled at a level.
pub fn op_class(op: Opcode, level: Level) -> (r: String)
    ensures
        r@ == op_text(op, level),
{
    let m: &'static str = op.mnemonic();
    match level {
        Level::Bc => String::from_str(m),
        _ => {
            let s = chars_of(m);
            let mut i: usize = 0;
            while i < s.len() && s[i] != '/'
                invariant
                    i <= s@.len(),
                    slash_from(s@, 0) == slash_from(s@, i as int),
                decreases s@.len() - i,
            {
                i = i + 1;
            }
            let head = m.substring_char(0, i);
            assert(head@ =~= before_slash(m@));
            String::from_str(head)
        },
    }
}

// Operands

/// The instruction holds a number.
pub open spec fn holds_number(format: InsnFormat) -> bool {
    match format {
        InsnFormat::F11n | InsnFormat::F21s | InsnFormat::F21h | InsnFormat::F22s
        | InsnFormat::F22b | InsnFormat::F31i | InsnFormat::F51l => true,
        _ => false,
    }
}

fn format_has_immediate(format: InsnFormat) -> (r: bool)
    ensures
        r == holds_number(format),
{
    match format {
        InsnFormat::F11n | InsnFormat::F21s | InsnFormat::F21h | InsnFormat::F22s
        | InsnFormat::F22b | InsnFormat::F31i | InsnFormat::F51l => true,
        _ => false,
    }
}

/// The instruction branches. Switches and array fills do not: their target is data.
pub open spec fn branches(format: InsnFormat) -> bool {
    match format {
        InsnFormat::F10t | InsnFormat::F20t | InsnFormat::F30t | InsnFormat::F21t
        | InsnFormat::F22t => true,
        _ => false,
    }
}

fn is_branch_format(format: InsnFormat) -> (r: bool)
    ensures
        r == branches(format),
{
    match format {
        InsnFormat::F10t | InsnFormat::F20t | InsnFormat::F30t | InsnFormat::F21t
        | InsnFormat::F22t => true,
        _ => false,
    }
}

/// Where an instruction branches to, as a level has it.
pub open spec fn branch_at(insn: Instruction, level: Level) -> Option<Branch> {
    if !branches(insn.op.layout()) {
        None
    } else {
        match insn.target {
            None => None,
            Some(target) => Some(
                if level is Bc {
                    Branch::Absolute(target)
                } else if target > insn.addr {
                    Branch::Forward
                } else if target < insn.addr {
                    Branch::Backward
                } else {
                    Branch::Zero
                },
            ),
        }
    }
}

fn branch_for(insn: &Instruction, level: Level) -> (r: Option<Branch>)
    ensures
        r == branch_at(*insn, level),
{
    if !is_branch_format(insn_format(insn.op)) {
        return None;
    }
    match insn.target {
        None => None,
        Some(target) => Some(
            match level {
                Level::Bc => Branch::Absolute(target),
                _ => if target > insn.addr {
                    Branch::Forward
                } else if target < insn.addr {
                    Branch::Backward
                } else {
                    Branch::Zero
                },
            },
        ),
    }
}

// References

/// What reads in place of something that is not there.
pub open spec fn or_else<E>(r: Result<Seq<char>, E>, other: Seq<char>) -> Seq<char> {
    match r {
        Ok(t) => t,
        Err(_) => other,
    }
}

/// A string constant as text.
pub open spec fn string_text(dex: DexFile, idx: StringIdx) -> Seq<char> {
    "\""@ + or_else(dex.string_at(idx), "<?str>"@) + "\""@
}

/// What an instruction refers to, by name.
pub open spec fn named(dex: DexFile, insn: Instruction) -> Option<Seq<char>> {
    match insn.pool_idx {
        None => None,
        Some(p) => Some(
            if insn.op is ConstMethodHandle {
                "<method-handle>"@
            } else if insn.op is ConstMethodType {
                "<method-type>"@
            } else {
                match p {
                    PoolIndex::String(s) => string_text(dex, s),
                    PoolIndex::Type(t) => or_else(dex.descriptor_at(t), "<?type>"@),
                    PoolIndex::Field(f) => or_else(dex.field_text(f), "<?field>"@),
                    PoolIndex::Method(m) => or_else(dex.method_text(m), "<?method>"@),
                    PoolIndex::MethodAndProto(m, _) => or_else(dex.method_text(m), "<?method>"@),
                    PoolIndex::CallSite(_) => "<call-site>"@,
                }
            },
        ),
    }
}

/// A type by its platform supertypes.
pub open spec fn type_erased(dex: DexFile, places: Map<u32, usize>, ty: TypeIdx) -> Seq<char> {
    let set = supertypes(dex, places, ty);
    joined(set, set.len())
}

/// What an instruction refers to, with platform supertypes in place of names: a
/// member by its class. Strings stay.
pub open spec fn erased(dex: DexFile, places: Map<u32, usize>, insn: Instruction) -> Option<
    Seq<char>,
> {
    match insn.pool_idx {
        None => None,
        Some(p) => Some(
            if insn.op is ConstMethodHandle {
                "<method-handle>"@
            } else if insn.op is ConstMethodType {
                "<method-type>"@
            } else {
                match p {
                    PoolIndex::String(s) => string_text(dex, s),
                    PoolIndex::Type(t) => type_erased(dex, places, t),
                    PoolIndex::Field(f) => if f.0 < dex.fields@.len() {
                        type_erased(dex, places, dex.fields@[f.0 as int].class_idx)
                    } else {
                        "<?field>"@
                    },
                    PoolIndex::Method(m) => if m.0 < dex.methods@.len() {
                        type_erased(dex, places, dex.methods@[m.0 as int].class_idx)
                    } else {
                        "<?method>"@
                    },
                    PoolIndex::MethodAndProto(m, _) => if m.0 < dex.methods@.len() {
                        type_erased(dex, places, dex.methods@[m.0 as int].class_idx)
                    } else {
                        "<?method>"@
                    },
                    PoolIndex::CallSite(_) => "<call-site>"@,
                }
            },
        ),
    }
}

/// A string holds what is expected.
pub open spec fn reads(r: Option<String>, expected: Option<Seq<char>>) -> bool {
    match expected {
        Some(t) => r matches Some(s) && s@ == t,
        None => r is None,
    }
}

fn quote_string(dex: &DexFile, idx: StringIdx) -> (r: String)
    ensures
        r@ == string_text(*dex, idx),
{
    let mut s = String::from_str("\"");
    match dex.get_string(idx) {
        Ok(t) => {
            s.append(t);
        },
        Err(_) => {
            s.append("<?str>");
        },
    }
    s.append("\"");
    s
}

fn name_method(dex: &DexFile, m: MethodIdx) -> (r: String)
    ensures
        r@ == or_else(dex.method_text(m), "<?method>"@),
{
    match dex.format_method(m) {
        Ok(s) => s,
        Err(_) => String::from_str("<?method>"),
    }
}

fn pool_token(dex: &DexFile, insn: &Instruction) -> (r: Option<String>)
    ensures
        reads(r, named(*dex, *insn)),
{
    match insn.pool_idx {
        None => None,
        Some(p) => {
            match insn.op {
                Opcode::ConstMethodHandle => {
                    return Some(String::from_str("<method-handle>"));
                },
                Opcode::ConstMethodType => {
                    return Some(String::from_str("<method-type>"));
                },
                _ => {},
            }
            Some(
                match p {
                    PoolIndex::String(s) => quote_string(dex, s),
                    PoolIndex::Type(t) => match dex.get_type_descriptor(t) {
                        Ok(d) => String::from_str(d),
                        Err(_) => String::from_str("<?type>"),
                    },
                    PoolIndex::Field(f) => match dex.format_field(f) {
                        Ok(s) => s,
                        Err(_) => String::from_str("<?field>"),
                    },
                    PoolIndex::Method(m) => name_method(dex, m),
                    PoolIndex::MethodAndProto(m, _) => name_method(dex, m),
                    PoolIndex::CallSite(_) => String::from_str("<call-site>"),
                },
            )
        },
    }
}

fn nr_type_token(dex: &DexFile, ttm: &TypeToClassDefMap, ty: TypeIdx) -> (r: String)
    ensures
        r@ == type_erased(*dex, ttm@, ty),
{
    supertype_set_token(nearest_api_supertype_set(dex, ttm, ty).as_slice())
}

fn erase_method(dex: &DexFile, ttm: &TypeToClassDefMap, m: MethodIdx) -> (r: String)
    ensures
        r@ == (if m.0 < dex.methods@.len() {
            type_erased(*dex, ttm@, dex.methods@[m.0 as int].class_idx)
        } else {
            "<?method>"@
        }),
{
    if (m.0 as usize) < dex.methods.len() {
        nr_type_token(dex, ttm, dex.methods[m.0 as usize].class_idx)
    } else {
        String::from_str("<?method>")
    }
}

fn pool_token_nr(dex: &DexFile, ttm: &TypeToClassDefMap, insn: &Instruction) -> (r: Option<String>)
    ensures
        reads(r, erased(*dex, ttm@, *insn)),
{
    match insn.pool_idx {
        None => None,
        Some(p) => {
            match insn.op {
                Opcode::ConstMethodHandle => {
                    return Some(String::from_str("<method-handle>"));
                },
                Opcode::ConstMethodType => {
                    return Some(String::from_str("<method-type>"));
                },
                _ => {},
            }
            Some(
                match p {
                    PoolIndex::String(s) => quote_string(dex, s),
                    PoolIndex::Type(t) => nr_type_token(dex, ttm, t),
                    PoolIndex::Field(f) => if (f.0 as usize) < dex.fields.len() {
                        nr_type_token(dex, ttm, dex.fields[f.0 as usize].class_idx)
                    } else {
                        String::from_str("<?field>")
                    },
                    PoolIndex::Method(m) => erase_method(dex, ttm, m),
                    PoolIndex::MethodAndProto(m, _) => erase_method(dex, ttm, m),
                    PoolIndex::CallSite(_) => String::from_str("<call-site>"),
                },
            )
        },
    }
}

// Tokens

/// The destination register, if any, and the source registers.
pub open spec fn registers_of(insn: Instruction) -> Seq<u16> {
    (match insn.dst {
        Some(d) => seq![d],
        None => Seq::empty(),
    }) + insn.src.listed()
}

/// The token for an instruction. `places` is needed for the level without names.
pub open spec fn token_of(
    dex: DexFile,
    insn: Instruction,
    level: Level,
    places: Option<Map<u32, usize>>,
) -> TokenText {
    TokenText {
        op: op_text(insn.op, level),
        regs: registers_of(insn),
        lit: if holds_number(insn.op.layout()) {
            Some(insn.literal)
        } else {
            None
        },
        branch: branch_at(insn, level),
        pool: match (level, places) {
            (Level::Nr, Some(m)) => erased(dex, m, insn),
            _ => named(dex, insn),
        },
    }
}

/// The map behind an optional reference.
pub open spec fn places_of(ttm: Option<&TypeToClassDefMap>) -> Option<Map<u32, usize>> {
    match ttm {
        Some(m) => Some(m@),
        None => None,
    }
}

/// The token for an instruction.
pub fn token_for(
    dex: &DexFile,
    insn: &Instruction,
    level: Level,
    ttm: Option<&TypeToClassDefMap>,
) -> (r: Token)
    ensures
        r@ == token_of(*dex, *insn, level, places_of(ttm)),
{
    let mut regs: Vec<u16> = Vec::new();
    match insn.dst {
        Some(d) => {
            regs.push(d);
        },
        None => {},
    }
    regs.extend_from_slice(insn.src.registers().as_slice());
    assert(regs@ =~= registers_of(*insn));
    let lit: Option<i64> = if format_has_immediate(insn_format(insn.op)) {
        Some(insn.literal)
    } else {
        None
    };
    let pool = match (level, ttm) {
        (Level::Nr, Some(m)) => pool_token_nr(dex, m, insn),
        _ => pool_token(dex, insn),
    };
    Token { op: op_class(insn.op, level), regs, lit, branch: branch_for(insn, level), pool }
}

/// The instruction has no token at a level.
pub open spec fn dropped(insn: Instruction, level: Level) -> bool {
    !(level is Bc) && insn.op is Nop
}

/// The tokens for the first `n` instructions.
pub open spec fn tokens(
    dex: DexFile,
    insns: Seq<Instruction>,
    level: Level,
    places: Option<Map<u32, usize>>,
    n: nat,
) -> Seq<TokenText>
    decreases n,
{
    if n == 0 {
        Seq::empty()
    } else {
        let front = tokens(dex, insns, level, places, (n - 1) as nat);
        if dropped(insns[n - 1], level) {
            front
        } else {
            front.push(token_of(dex, insns[n - 1], level, places))
        }
    }
}

/// The instructions were not decoded in step with the bytes.
pub open spec fn desynced(code: CodeItem) -> bool {
    exists|i: int|
        0 <= i < code.invariant_violations@.len()
            && (#[trigger] code.invariant_violations@[i]) is UnknownOpcodeByte
}

/// The contents of tokens.
pub open spec fn token_texts(v: Seq<Token>) -> Seq<TokenText> {
    v.map_values(|t: Token| t@)
}

/// The tokens of a method at a level.
pub open spec fn method_tokens(dex: DexFile, code: CodeItem, level: Level) -> Seq<TokenText> {
    tokens(
        dex,
        code.instructions@,
        level,
        if level is Nr {
            Some(class_places(dex.class_defs@))
        } else {
            None
        },
        code.instructions@.len(),
    )
}

fn find_desync(code: &CodeItem) -> (r: bool)
    ensures
        r == desynced(*code),
{
    let mut i: usize = 0;
    while i < code.invariant_violations.len()
        invariant
            i <= code.invariant_violations@.len(),
            forall|j: int|
                0 <= j < i ==> !((#[trigger] code.invariant_violations@[j]) is UnknownOpcodeByte),
        decreases code.invariant_violations@.len() - i,
    {
        match code.invariant_violations[i] {
            CodeItemInvariantViolation::UnknownOpcodeByte { .. } => {
                assert(code.invariant_violations@[i as int] is UnknownOpcodeByte);
                return true;
            },
            _ => {},
        }
        i = i + 1;
    }
    false
}

/// The tokens of a method. A method that was not decoded in step with its bytes has
/// none.
pub fn encode_method(dex: &DexFile, code: &CodeItem, level: Level) -> (r: Result<
    Vec<Token>,
    Unencodable,
>)
    ensures
        match r {
            Ok(v) => !desynced(*code) && token_texts(v@) == method_tokens(*dex, *code, level),
            Err(e) => desynced(*code) && e == Unencodable::DecodeDesync,
        },
{
    if find_desync(code) {
        return Err(Unencodable::DecodeDesync);
    }
    let ttm = TypeToClassDefMap::build(dex);
    let used: Option<&TypeToClassDefMap> = match level {
        Level::Nr => Some(&ttm),
        _ => None,
    };
    let mut out: Vec<Token> = Vec::new();
    let mut i: usize = 0;
    assert(token_texts(out@) =~= Seq::empty());
    while i < code.instructions.len()
        invariant
            i <= code.instructions@.len(),
            token_texts(out@) == tokens(
                *dex,
                code.instructions@,
                level,
                places_of(used),
                i as nat,
            ),
        decreases code.instructions@.len() - i,
    {
        let insn: Instruction = code.instructions[i];
        let is_nop: bool = match insn.op {
            Opcode::Nop => true,
            _ => false,
        };
        let skip: bool = match level {
            Level::Bc => false,
            _ => is_nop,
        };
        if !skip {
            let ghost before = out@;
            let t = token_for(dex, &insn, level, used);
            out.push(t);
            assert(token_texts(out@) =~= token_texts(before).push(t@));
        }
        i = i + 1;
    }
    Ok(out)
}

/// The first `n` tokens as text, one to a line.
pub open spec fn lines(t: Seq<TokenText>, n: nat) -> Seq<char>
    decreases n,
{
    if n == 0 {
        Seq::empty()
    } else if n == 1 {
        t[0].spelled()
    } else {
        lines(t, (n - 1) as nat) + "\n"@ + t[n - 1].spelled()
    }
}

/// The tokens of a method as text, one to a line.
pub fn encode_method_string(dex: &DexFile, code: &CodeItem, level: Level) -> (r: Result<
    String,
    Unencodable,
>)
    ensures
        match r {
            Ok(s) => !desynced(*code) && s@ == lines(
                method_tokens(*dex, *code, level),
                method_tokens(*dex, *code, level).len(),
            ),
            Err(e) => desynced(*code) && e == Unencodable::DecodeDesync,
        },
{
    let list = encode_method(dex, code, level)?;
    let ghost t = token_texts(list@);
    let mut s = String::new();
    let mut i: usize = 0;
    while i < list.len()
        invariant
            i <= list@.len(),
            t == token_texts(list@),
            s@ == lines(t, i as nat),
        decreases list@.len() - i,
    {
        if i != 0 {
            s.append("\n");
        }
        s.append(list[i].to_text().as_str());
        i = i + 1;
        assert(s@ =~= lines(t, i as nat));
    }
    Ok(s)
}

} // verus!
