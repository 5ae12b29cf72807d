use vstd::prelude::*;

use crate::text::string_of;

verus! {

pub const ATOMIC_GAME_IR_FORMAT: &'static str = "atomicflix-game-ir";

pub const ATOMIC_GAME_IR_VERSION: u32 = 1;

/// A JSON number as the program file holds it: a non-negative integer, a
/// negative integer, or a float held by its IEEE-754 bits.
#[derive(Debug, Clone)]
pub enum JsonNumber {
    PosInt(u64),
    NegInt(i64),
    Float(u64),
}

/// A JSON value carried by an instruction (the operand of SET, ADD, IF_EQ).
#[derive(Debug)]
pub enum JsonValue {
    Null,
    Bool(bool),
    Number(JsonNumber),
    String(String),
    Array(Vec<JsonValue>),
    Object(Vec<(String, JsonValue)>),
}

impl JsonValue {
    /// Whether the value is a JSON number.
    pub fn is_number(&self) -> (b: bool)
        ensures
            b == (self is Number),
    {
        match self {
            JsonValue::Number(_) => true,
            _ => false,
        }
    }
}

/// A complete atomic game program.
#[derive(Debug)]
pub struct AtomicGameProgram {
    pub format: String,
    pub version: u32,
    pub entry_point: String,
    pub instructions: Vec<AtomicInstruction>,
}

impl Default for AtomicGameProgram {
    fn default() -> (p: Self)
        ensures
            p.format@ == ATOMIC_GAME_IR_FORMAT@,
            p.version == ATOMIC_GAME_IR_VERSION,
            p.entry_point@ == "start"@,
            p.instructions@.len() == 0,
    {
        AtomicGameProgram {
            format: string_of(ATOMIC_GAME_IR_FORMAT),
            version: ATOMIC_GAME_IR_VERSION,
            entry_point: string_of("start"),
            instructions: Vec::new(),
        }
    }
}

/// One instruction of an atomic game program; `line` is its source line.
#[derive(Debug)]
pub enum AtomicInstruction {
    Label { name: String, line: u32 },
    Layout { value: String, line: u32 },
    Image { value: String, line: u32 },
    Title { value: String, line: u32 },
    Text { value: String, line: u32 },
    Choice { text: String, target: String, line: u32 },
    WaitChoice { line: u32 },
    Goto { target: String, line: u32 },
    End { line: u32 },
    SetVar { variable: String, value: JsonValue, line: u32 },
    Add { variable: String, value: JsonValue, line: u32 },
    IfEq { variable: String, value: JsonValue, target: String, line: u32 },
    WaitKey { variable: Option<String>, line: u32 },
}

/// The operation name under which an instruction is written.
pub open spec fn op_name_of(inst: AtomicInstruction) -> Seq<char> {
    match inst {
        AtomicInstruction::Label { .. } => "LABEL"@,
        AtomicInstruction::Layout { .. } => "LAYOUT"@,
        AtomicInstruction::Image { .. } => "IMAGE"@,
        AtomicInstruction::Title { .. } => "TITLE"@,
        AtomicInstruction::Text { .. } => "TEXT"@,
        AtomicInstruction::Choice { .. } => "CHOICE"@,
        AtomicInstruction::WaitChoice { .. } => "WAITCHOICE"@,
        AtomicInstruction::Goto { .. } => "GOTO"@,
        AtomicInstruction::End { .. } => "END"@,
        AtomicInstruction::SetVar { .. } => "SET"@,
        AtomicInstruction::Add { .. } => "ADD"@,
        AtomicInstruction::IfEq { .. } => "IF_EQ"@,
        AtomicInstruction::WaitKey { .. } => "WAITKEY"@,
    }
}

/// The source line of an instruction.
pub open spec fn line_of(inst: AtomicInstruction) -> u32 {
    match inst {
        AtomicInstruction::Label { line, .. } => line,
        AtomicInstruction::Layout { line, .. } => line,
        AtomicInstruction::Image { line, .. } => line,
        AtomicInstruction::Title { line, .. } => line,
        AtomicInstruction::Text { line, .. } => line,
        AtomicInstruction::Choice { line, .. } => line,
        AtomicInstruction::WaitChoice { line } => line,
        AtomicInstruction::Goto { line, .. } => line,
        AtomicInstruction::End { line } => line,
        AtomicInstruction::SetVar { line, .. } => line,
        AtomicInstruction::Add { line, .. } => line,
        AtomicInstruction::IfEq { line, .. } => line,
        AtomicInstruction::WaitKey { line, .. } => line,
    }
}

/// The label an instruction may jump to: CHOICE, GOTO and IF_EQ have one.
pub open spec fn target_of(inst: AtomicInstruction) -> Option<Seq<char>> {
    match inst {
        AtomicInstruction::Choice { target, .. } => Some(target@),
        AtomicInstruction::Goto { target, .. } => Some(target@),
        AtomicInstruction::IfEq { target, .. } => Some(target@),
        _ => None,
    }
}

impl AtomicInstruction {
    pub fn op_name(&self) -> (s: &'static str)
        ensures
            s@ == op_name_of(*self),
    {
        match self {
            AtomicInstruction::Label { .. } => "LABEL",
            AtomicInstruction::Layout { .. } => "LAYOUT",
            AtomicInstruction::Image { .. } => "IMAGE",
            AtomicInstruction::Title { .. } => "TITLE",
            AtomicInstruction::Text { .. } => "TEXT",
            AtomicInstruction::Choice { .. } => "CHOICE",
            AtomicInstruction::WaitChoice { .. } => "WAITCHOICE",
            AtomicInstruction::Goto { .. } => "GOTO",
            AtomicInstruction::End { .. } => "END",
            AtomicInstruction::SetVar { .. } => "SET",
            AtomicInstruction::Add { .. } => "ADD",
            AtomicInstruction::IfEq { .. } => "IF_EQ",
            AtomicInstruction::WaitKey { .. } => "WAITKEY",
        }
    }

    pub fn source_line(&self) -> (l: u32)
        ensures
            l == line_of(*self),
    {
        match self {
            AtomicInstruction::Label { line, .. } => *line,
            AtomicInstruction::Layout { line, .. } => *line,
            AtomicInstruction::Image { line, .. } => *line,
            AtomicInstruction::Title { line, .. } => *line,
            AtomicInstruction::Text { line, .. } => *line,
            AtomicInstruction::Choice { line, .. } => *line,
            AtomicInstruction::WaitChoice { line } => *line,
            AtomicInstruction::Goto { line, .. } => *line,
            AtomicInstruction::End { line } => *line,
            AtomicInstruction::SetVar { line, .. } => *line,
            AtomicInstruction::Add { line, .. } => *line,
            AtomicInstruction::IfEq { line, .. } => *line,
            AtomicInstruction::WaitKey { line, .. } => *line,
        }
    }

    pub fn jump_target(&self) -> (t: Option<&str>)
        ensures
            match t {
                Some(s) => target_of(*self) == Some(s@),
                None => target_of(*self) is None,
            },
    {
        match self {
            AtomicInstruction::Choice { target, .. } => Some(target.as_str()),
            AtomicInstruction::Goto { target, .. } => Some(target.as_str()),
            AtomicInstruction::IfEq { target, .. } => Some(target.as_str()),
            _ => None,
        }
    }
}

} // verus!
