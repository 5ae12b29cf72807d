use vstd::prelude::*;

use crate::common::BasilError;
use crate::text::string_of;
use std::string::FromUtf8Error;
use vstd::utf8::{decode_utf8, encode_utf8, valid_utf8};

verus! {

// ---------------------------------------------------------------------
// Value descriptions shared with the object system

/// The element type of a Basil array.
#[derive(Debug, Clone, PartialEq, Eq)]
pub enum ElemType {
    Num,
    Int,
    Str,
    Obj(Option<String>),
}

#[derive(Debug, Clone)]
pub struct PropDesc {
    pub name: String,
    pub type_label: String,
    pub readable: bool,
    pub writable: bool,
}

#[derive(Debug, Clone)]
pub struct MethodDesc {
    pub name: String,
    pub arity: u8,
    pub arg_names: Vec<String>,
    pub return_type: String,
}

#[derive(Debug, Clone)]
pub struct ObjectDescriptor {
    pub type_label: String,
    pub version: String,
    pub summary: String,
    pub properties: Vec<PropDesc>,
    pub methods: Vec<MethodDesc>,
    pub examples: Vec<String>,
}

// ---------------------------------------------------------------------
// Operations

/// The operations of the Basil VM; each is written as one byte (see [`op_code`]).
#[derive(Debug, Clone, Copy, PartialEq, Eq, Structural)]
pub enum Op {
    Const,
    LoadGlobal,
    StoreGlobal,
    LoadLocal,
    StoreLocal,
    Add,
    Sub,
    Mul,
    Div,
    Neg,
    Mod,
    Eq,
    Ne,
    Lt,
    Le,
    Gt,
    Ge,
    Jump,
    JumpIfFalse,
    JumpBack,
    Gosub,
    GosubBack,
    GosubRet,
    GosubPop,
    Call,
    Ret,
    Print,
    Pop,
    ToInt,
    Builtin,
    SetLine,
    ArrMake,
    ArrGet,
    ArrSet,
    NewObj,
    GetProp,
    SetProp,
    CallMethod,
    DescribeObj,
    NewClass,
    GetMember,
    SetMember,
    CallMember,
    DestroyInstance,
    ExecString,
    EvalString,
    EnumNew,
    EnumMoveNext,
    EnumCurrent,
    EnumDispose,
    TryPush,
    TryPop,
    Raise,
    Reraise,
    Stop,
    Halt,
}

/// The byte that stands for an operation.
pub open spec fn op_code(op: Op) -> u8 {
    match op {
        Op::Const => 1,
        Op::LoadGlobal => 2,
        Op::StoreGlobal => 3,
        Op::LoadLocal => 11,
        Op::StoreLocal => 12,
        Op::Add => 20,
        Op::Sub => 21,
        Op::Mul => 22,
        Op::Div => 23,
        Op::Neg => 24,
        Op::Mod => 25,
        Op::Eq => 30,
        Op::Ne => 31,
        Op::Lt => 32,
        Op::Le => 33,
        Op::Gt => 34,
        Op::Ge => 35,
        Op::Jump => 40,
        Op::JumpIfFalse => 41,
        Op::JumpBack => 42,
        Op::Gosub => 110,
        Op::GosubBack => 111,
        Op::GosubRet => 112,
        Op::GosubPop => 113,
        Op::Call => 50,
        Op::Ret => 51,
        Op::Print => 60,
        Op::Pop => 61,
        Op::ToInt => 62,
        Op::Builtin => 63,
        Op::SetLine => 64,
        Op::ArrMake => 70,
        Op::ArrGet => 71,
        Op::ArrSet => 72,
        Op::NewObj => 80,
        Op::GetProp => 81,
        Op::SetProp => 82,
        Op::CallMethod => 83,
        Op::DescribeObj => 84,
        Op::NewClass => 100,
        Op::GetMember => 101,
        Op::SetMember => 102,
        Op::CallMember => 103,
        Op::DestroyInstance => 104,
        Op::ExecString => 105,
        Op::EvalString => 106,
        Op::EnumNew => 90,
        Op::EnumMoveNext => 91,
        Op::EnumCurrent => 92,
        Op::EnumDispose => 93,
        Op::TryPush => 120,
        Op::TryPop => 121,
        Op::Raise => 122,
        Op::Reraise => 123,
        Op::Stop => 124,
        Op::Halt => 255,
    }
}

/// The operation that a byte stands for, if any.
pub open spec fn op_of_code(b: u8) -> Option<Op> {
    match b {
        1 => Some(Op::Const),
        2 => Some(Op::LoadGlobal),
        3 => Some(Op::StoreGlobal),
        11 => Some(Op::LoadLocal),
        12 => Some(Op::StoreLocal),
        20 => Some(Op::Add),
        21 => Some(Op::Sub),
        22 => Some(Op::Mul),
        23 => Some(Op::Div),
        24 => Some(Op::Neg),
        25 => Some(Op::Mod),
        30 => Some(Op::Eq),
        31 => Some(Op::Ne),
        32 => Some(Op::Lt),
        33 => Some(Op::Le),
        34 => Some(Op::Gt),
        35 => Some(Op::Ge),
        40 => Some(Op::Jump),
        41 => Some(Op::JumpIfFalse),
        42 => Some(Op::JumpBack),
        110 => Some(Op::Gosub),
        111 => Some(Op::GosubBack),
        112 => Some(Op::GosubRet),
        113 => Some(Op::GosubPop),
        50 => Some(Op::Call),
        51 => Some(Op::Ret),
        60 => Some(Op::Print),
        61 => Some(Op::Pop),
        62 => Some(Op::ToInt),
        63 => Some(Op::Builtin),
        64 => Some(Op::SetLine),
        70 => Some(Op::ArrMake),
        71 => Some(Op::ArrGet),
        72 => Some(Op::ArrSet),
        80 => Some(Op::NewObj),
        81 => Some(Op::GetProp),
        82 => Some(Op::SetProp),
        83 => Some(Op::CallMethod),
        84 => Some(Op::DescribeObj),
        100 => Some(Op::NewClass),
        101 => Some(Op::GetMember),
        102 => Some(Op::SetMember),
        103 => Some(Op::CallMember),
        104 => Some(Op::DestroyInstance),
        105 => Some(Op::ExecString),
        106 => Some(Op::EvalString),
        90 => Some(Op::EnumNew),
        91 => Some(Op::EnumMoveNext),
        92 => Some(Op::EnumCurrent),
        93 => Some(Op::EnumDispose),
        120 => Some(Op::TryPush),
        121 => Some(Op::TryPop),
        122 => Some(Op::Raise),
        123 => Some(Op::Reraise),
        124 => Some(Op::Stop),
        255 => Some(Op::Halt),
        _ => None,
    }
}

impl Op {
    /// The byte that stands for this operation.
    pub fn code(self) -> (b: u8)
        ensures
            b == op_code(self),
    {
        match self {
            Op::Const => 1,
            Op::LoadGlobal => 2,
            Op::StoreGlobal => 3,
            Op::LoadLocal => 11,
            Op::StoreLocal => 12,
            Op::Add => 20,
            Op::Sub => 21,
            Op::Mul => 22,
            Op::Div => 23,
            Op::Neg => 24,
            Op::Mod => 25,
            Op::Eq => 30,
            Op::Ne => 31,
            Op::Lt => 32,
            Op::Le => 33,
            Op::Gt => 34,
            Op::Ge => 35,
            Op::Jump => 40,
            Op::JumpIfFalse => 41,
            Op::JumpBack => 42,
            Op::Gosub => 110,
            Op::GosubBack => 111,
            Op::GosubRet => 112,
            Op::GosubPop => 113,
            Op::Call => 50,
            Op::Ret => 51,
            Op::Print => 60,
            Op::Pop => 61,
            Op::ToInt => 62,
            Op::Builtin => 63,
            Op::SetLine => 64,
            Op::ArrMake => 70,
            Op::ArrGet => 71,
            Op::ArrSet => 72,
            Op::NewObj => 80,
            Op::GetProp => 81,
            Op::SetProp => 82,
            Op::CallMethod => 83,
            Op::DescribeObj => 84,
            Op::NewClass => 100,
            Op::GetMember => 101,
            Op::SetMember => 102,
            Op::CallMember => 103,
            Op::DestroyInstance => 104,
            Op::ExecString => 105,
            Op::EvalString => 106,
            Op::EnumNew => 90,
            Op::EnumMoveNext => 91,
            Op::EnumCurrent => 92,
            Op::EnumDispose => 93,
            Op::TryPush => 120,
            Op::TryPop => 121,
            Op::Raise => 122,
            Op::Reraise => 123,
            Op::Stop => 124,
            Op::Halt => 255,
        }
    }

    /// The operation that `b` stands for, if any.
    pub fn from_code(b: u8) -> (r: Option<Op>)
        ensures
            r == op_of_code(b),
    {
        match b {
            1 => Some(Op::Const),
            2 => Some(Op::LoadGlobal),
            3 => Some(Op::StoreGlobal),
            11 => Some(Op::LoadLocal),
            12 => Some(Op::StoreLocal),
            20 => Some(Op::Add),
            21 => Some(Op::Sub),
            22 => Some(Op::Mul),
            23 => Some(Op::Div),
            24 => Some(Op::Neg),
            25 => Some(Op::Mod),
            30 => Some(Op::Eq),
            31 => Some(Op::Ne),
            32 => Some(Op::Lt),
            33 => Some(Op::Le),
            34 => Some(Op::Gt),
            35 => Some(Op::Ge),
            40 => Some(Op::Jump),
            41 => Some(Op::JumpIfFalse),
            42 => Some(Op::JumpBack),
            110 => Some(Op::Gosub),
            111 => Some(Op::GosubBack),
            112 => Some(Op::GosubRet),
            113 => Some(Op::GosubPop),
            50 => Some(Op::Call),
            51 => Some(Op::Ret),
            60 => Some(Op::Print),
            61 => Some(Op::Pop),
            62 => Some(Op::ToInt),
            63 => Some(Op::Builtin),
            64 => Some(Op::SetLine),
            70 => Some(Op::ArrMake),
            71 => Some(Op::ArrGet),
            72 => Some(Op::ArrSet),
            80 => Some(Op::NewObj),
            81 => Some(Op::GetProp),
            82 => Some(Op::SetProp),
            83 => Some(Op::CallMethod),
            84 => Some(Op::DescribeObj),
            100 => Some(Op::NewClass),
            101 => Some(Op::GetMember),
            102 => Some(Op::SetMember),
            103 => Some(Op::CallMember),
            104 => Some(Op::DestroyInstance),
            105 => Some(Op::ExecString),
            106 => Some(Op::EvalString),
            90 => Some(Op::EnumNew),
            91 => Some(Op::EnumMoveNext),
            92 => Some(Op::EnumCurrent),
            93 => Some(Op::EnumDispose),
            120 => Some(Op::TryPush),
            121 => Some(Op::TryPop),
            122 => Some(Op::Raise),
            123 => Some(Op::Reraise),
            124 => Some(Op::Stop),
            255 => Some(Op::Halt),
            _ => None,
        }
    }
}

/// Every operation is read back from its byte, and no two operations share a byte.
pub proof fn law_op_code_roundtrip(op: Op, other: Op)
    ensures
        op_of_code(op_code(op)) == Some(op),
        op_code(op) == op_code(other) ==> op == other,
{
}


// ---------------------------------------------------------------------
// Constants, chunks and programs

/// A constant of a chunk. A number is held by its IEEE-754 bits; the runtime-only
/// values (arrays, objects, lists, dictionaries, string tables) carry no payload here:
/// the program cache writes them as a tag and reads them back as `Null`.
#[derive(Debug)]
pub enum ConstValue {
    Null,
    Bool(bool),
    Num(u64),
    Int(i64),
    Str(String),
    Func(Box<Function>),
    Array,
    Object,
    StrArray2D,
    List,
    Dict,
}

/// A compiled function.
#[derive(Debug)]
pub struct Function {
    pub arity: u8,
    pub name: Option<String>,
    pub chunk: Chunk,
}

/// Code and constants.
#[derive(Debug, Default)]
pub struct Chunk {
    pub code: Vec<u8>,
    pub consts: Vec<ConstValue>,
}

/// Top-level code and the names of the globals, by index.
#[derive(Debug)]
pub struct Program {
    pub chunk: Chunk,
    pub globals: Vec<String>,
}

/// A constant as a mathematical value.
pub enum ValueView {
    Null,
    Bool(bool),
    Num(u64),
    Int(i64),
    Str(Seq<char>),
    Func(u8, Option<Seq<char>>, ChunkView),
    Array,
    Object,
    StrArray2D,
    List,
    Dict,
}

pub struct ChunkView {
    pub code: Seq<u8>,
    pub consts: Seq<ValueView>,
}

pub struct ProgramView {
    pub chunk: ChunkView,
    pub globals: Seq<Seq<char>>,
}

pub open spec fn opt_str_view(o: Option<String>) -> Option<Seq<char>> {
    match o {
        Some(s) => Some(s@),
        None => None,
    }
}

pub open spec fn value_view(v: ConstValue) -> ValueView
    decreases v,
{
    match v {
        ConstValue::Null => ValueView::Null,
        ConstValue::Bool(b) => ValueView::Bool(b),
        ConstValue::Num(n) => ValueView::Num(n),
        ConstValue::Int(i) => ValueView::Int(i),
        ConstValue::Str(s) => ValueView::Str(s@),
        ConstValue::Func(f) => ValueView::Func(f.arity, opt_str_view(f.name), chunk_view(f.chunk)),
        ConstValue::Array => ValueView::Array,
        ConstValue::Object => ValueView::Object,
        ConstValue::StrArray2D => ValueView::StrArray2D,
        ConstValue::List => ValueView::List,
        ConstValue::Dict => ValueView::Dict,
    }
}

pub open spec fn chunk_view(c: Chunk) -> ChunkView
    decreases c,
{
    ChunkView { code: c.code@, consts: values_view(c.consts@) }
}

pub open spec fn values_view(s: Seq<ConstValue>) -> Seq<ValueView>
    decreases s,
{
    if s.len() == 0 {
        seq![]
    } else {
        values_view(s.drop_last()).push(value_view(s.last()))
    }
}

pub open spec fn strs_view(s: Seq<String>) -> Seq<Seq<char>> {
    s.map_values(|x: String| x@)
}

pub open spec fn program_view(p: Program) -> ProgramView {
    ProgramView { chunk: chunk_view(p.chunk), globals: strs_view(p.globals@) }
}

impl Chunk {
    pub fn push_op(&mut self, op: Op)
        ensures
            final(self).code@ == old(self).code@.push(op_code(op)),
            final(self).consts@ == old(self).consts@,
    {
        self.code.push(op.code());
    }

    pub fn push_u8(&mut self, b: u8)
        ensures
            final(self).code@ == old(self).code@.push(b),
            final(self).consts@ == old(self).consts@,
    {
        self.code.push(b);
    }

    /// Adds a constant and gives its index, truncated to 16 bits as `as u16` does.
    pub fn add_const(&mut self, v: ConstValue) -> (idx: u16)
        ensures
            final(self).code@ == old(self).code@,
            final(self).consts@ == old(self).consts@.push(v),
            idx == (old(self).consts@.len() as int) as u16,
    {
        self.consts.push(v);
        (self.consts.len() - 1) as u16
    }

    /// Appends `n` in little-endian order.
    pub fn push_u16(&mut self, n: u16)
        ensures
            final(self).code@ == old(self).code@ + le16(n),
            final(self).consts@ == old(self).consts@,
    {
        self.code.push((n & 0x00FF) as u8);
        self.code.push((n >> 8u16) as u8);
        assert(final(self).code@ =~= old(self).code@ + le16(n));
    }

    /// Appends two zero bytes to be patched later, and gives their position.
    pub fn emit_u16_placeholder(&mut self) -> (at: usize)
        ensures
            final(self).code@ == old(self).code@ + seq![0u8, 0u8],
            final(self).consts@ == old(self).consts@,
            at == old(self).code@.len(),
    {
        let at = self.code.len();
        self.code.push(0);
        self.code.push(0);
        assert(self.code@ =~= old(self).code@ + seq![0u8, 0u8]);
        at
    }

    /// Writes `val` in little-endian order at `at`.
    pub fn patch_u16_at(&mut self, at: usize, val: u16)
        requires
            at + 1 < old(self).code.len(),
        ensures
            final(self).code@ == old(self).code@.update(at as int, le16(val)[0]).update(at + 1, le16(val)[1]),
            final(self).consts@ == old(self).consts@,
    {
        let next = at + 1;
        self.code.set(at, (val & 0x00FF) as u8);
        self.code.set(next, (val >> 8u16) as u8);
    }

    /// The current end of the code.
    pub fn here(&self) -> (n: usize)
        ensures
            n == self.code@.len(),
    {
        self.code.len()
    }
}

/// `n` as two little-endian bytes.
pub open spec fn le16(n: u16) -> Seq<u8> {
    seq![(n & 0xff) as u8, (n >> 8) as u8]
}


// ---------------------------------------------------------------------
// The program cache format

/// `v` as four little-endian bytes.
pub open spec fn le32(v: u32) -> Seq<u8> {
    seq![(v & 0xff) as u8, ((v >> 8) & 0xff) as u8, ((v >> 16) & 0xff) as u8, ((v >> 24) & 0xff) as u8]
}

/// `v` as eight little-endian bytes.
pub open spec fn le64(v: u64) -> Seq<u8> {
    seq![
        (v & 0xff) as u8,
        ((v >> 8) & 0xff) as u8,
        ((v >> 16) & 0xff) as u8,
        ((v >> 24) & 0xff) as u8,
        ((v >> 32) & 0xff) as u8,
        ((v >> 40) & 0xff) as u8,
        ((v >> 48) & 0xff) as u8,
        ((v >> 56) & 0xff) as u8,
    ]
}

/// A string: its UTF-8 length in four bytes, then its UTF-8 bytes.
pub open spec fn ser_str(s: Seq<char>) -> Seq<u8> {
    le32(encode_utf8(s).len() as u32) + encode_utf8(s)
}

/// A constant: a tag byte, then its payload.
pub open spec fn ser_value(v: ValueView) -> Seq<u8>
    decreases v,
{
    match v {
        ValueView::Null => seq![0u8],
        ValueView::Bool(x) => seq![1u8, if x { 1u8 } else { 0u8 }],
        ValueView::Num(n) => seq![2u8] + le64(n),
        ValueView::Int(i) => seq![3u8] + le64(i as u64),
        ValueView::Str(t) => seq![4u8] + ser_str(t),
        ValueView::Func(arity, name, c) => seq![5u8, arity] + match name {
            Some(n) => seq![1u8] + ser_str(n),
            None => seq![0u8],
        } + ser_chunk(c),
        ValueView::Array => seq![250u8],
        ValueView::Object => seq![251u8],
        ValueView::StrArray2D => seq![252u8],
        ValueView::List => seq![253u8],
        ValueView::Dict => seq![254u8],
    }
}

/// A chunk: the code length, the code, the number of constants, the constants.
pub open spec fn ser_chunk(c: ChunkView) -> Seq<u8>
    decreases c,
{
    le32(c.code.len() as u32) + c.code + le32(c.consts.len() as u32) + ser_values(c.consts)
}

pub open spec fn ser_values(vs: Seq<ValueView>) -> Seq<u8>
    decreases vs,
{
    if vs.len() == 0 {
        seq![]
    } else {
        ser_value(vs[0]) + ser_values(vs.drop_first())
    }
}

pub open spec fn ser_strs(ss: Seq<Seq<char>>) -> Seq<u8>
    decreases ss.len(),
{
    if ss.len() == 0 {
        seq![]
    } else {
        ser_str(ss[0]) + ser_strs(ss.drop_first())
    }
}

/// A program: its chunk, the number of globals, their names.
pub open spec fn ser_program(p: ProgramView) -> Seq<u8> {
    ser_chunk(p.chunk) + le32(p.globals.len() as u32) + ser_strs(p.globals)
}

pub open spec fn rd_u8(d: Seq<u8>, p: int) -> Option<(u8, int)> {
    if 0 <= p < d.len() { Some((d[p], p + 1)) } else { None }
}

pub open spec fn u32_of(b0: u8, b1: u8, b2: u8, b3: u8) -> u32 {
    (b0 as u32) | ((b1 as u32) << 8) | ((b2 as u32) << 16) | ((b3 as u32) << 24)
}

pub open spec fn u64_of(d: Seq<u8>, p: int) -> u64 {
    (d[p] as u64) | ((d[p + 1] as u64) << 8) | ((d[p + 2] as u64) << 16) | ((d[p + 3] as u64) << 24) | ((d[p
        + 4] as u64) << 32) | ((d[p + 5] as u64) << 40) | ((d[p + 6] as u64) << 48) | ((d[p + 7] as u64) << 56)
}

pub open spec fn rd_u32(d: Seq<u8>, p: int) -> Option<(u32, int)> {
    if 0 <= p && p + 4 <= d.len() {
        Some((u32_of(d[p], d[p + 1], d[p + 2], d[p + 3]), p + 4))
    } else {
        None
    }
}

pub open spec fn rd_u64(d: Seq<u8>, p: int) -> Option<(u64, int)> {
    if 0 <= p && p + 8 <= d.len() {
        Some((u64_of(d, p), p + 8))
    } else {
        None
    }
}

pub open spec fn rd_str(d: Seq<u8>, p: int) -> Option<(Seq<char>, int)> {
    match rd_u32(d, p) {
        Some((n, q)) => if q + n <= d.len() && valid_utf8(d.subrange(q, q + n)) {
            Some((decode_utf8(d.subrange(q, q + n)), q + n))
        } else {
            None
        },
        None => None,
    }
}

/// The constant at `p`, and where it ends.
pub open spec fn de_value(d: Seq<u8>, p: int) -> Option<(ValueView, int)>
    decreases d.len() - p, 0int, 0int,
{
    if p < 0 || p >= d.len() {
        None
    } else {
        let tag = d[p];
        if tag == 0 {
            Some((ValueView::Null, p + 1))
        } else if tag == 1 {
            match rd_u8(d, p + 1) {
                Some((b, q)) => Some((ValueView::Bool(b != 0), q)),
                None => None,
            }
        } else if tag == 2 {
            match rd_u64(d, p + 1) {
                Some((n, q)) => Some((ValueView::Num(n), q)),
                None => None,
            }
        } else if tag == 3 {
            match rd_u64(d, p + 1) {
                Some((n, q)) => Some((ValueView::Int(n as i64), q)),
                None => None,
            }
        } else if tag == 4 {
            match rd_str(d, p + 1) {
                Some((t, q)) => Some((ValueView::Str(t), q)),
                None => None,
            }
        } else if tag == 5 {
            if p + 3 > d.len() {
                None
            } else {
                let arity = d[p + 1];
                let has = d[p + 2] != 0;
                let name_end: Option<(Option<Seq<char>>, int)> = if has {
                    match rd_str(d, p + 3) {
                        Some((n, q)) => Some((Some(n), q)),
                        None => None,
                    }
                } else {
                    Some((None, p + 3))
                };
                match name_end {
                    Some((name, q)) => if p < q <= d.len() {
                        match de_chunk(d, q) {
                            Some((c, r)) => Some((ValueView::Func(arity, name, c), r)),
                            None => None,
                        }
                    } else {
                        None
                    },
                    None => None,
                }
            }
        } else if 250 <= tag <= 254 {
            Some((ValueView::Null, p + 1))
        } else {
            None
        }
    }
}

/// The chunk at `p`, and where it ends.
pub open spec fn de_chunk(d: Seq<u8>, p: int) -> Option<(ChunkView, int)>
    decreases d.len() - p, 0int, 1int,
{
    if p < 0 || p > d.len() {
        None
    } else {
        match rd_u32(d, p) {
            Some((code_len, q)) => if q + code_len > d.len() {
                None
            } else {
                let code = d.subrange(q, q + code_len);
                match rd_u32(d, q + code_len) {
                    Some((n, r)) => match de_values(d, r, n as nat) {
                        Some((vs, e)) => Some((ChunkView { code, consts: vs }, e)),
                        None => None,
                    },
                    None => None,
                }
            },
            None => None,
        }
    }
}

/// `n` constants from `p` on, and where they end.
pub open spec fn de_values(d: Seq<u8>, p: int, n: nat) -> Option<(Seq<ValueView>, int)>
    decreases d.len() - p, n, 2int,
{
    if p < 0 || p > d.len() {
        None
    } else if n == 0 {
        Some((seq![], p))
    } else {
        match de_value(d, p) {
            Some((v, q)) => if p < q <= d.len() {
                match de_values(d, q, (n - 1) as nat) {
                    Some((vs, e)) => Some((seq![v] + vs, e)),
                    None => None,
                }
            } else {
                None
            },
            None => None,
        }
    }
}

/// `n` strings from `p` on, and where they end.
pub open spec fn de_strs(d: Seq<u8>, p: int, n: nat) -> Option<(Seq<Seq<char>>, int)>
    decreases n,
{
    if n == 0 {
        Some((seq![], p))
    } else {
        match rd_str(d, p) {
            Some((t, q)) => match de_strs(d, q, (n - 1) as nat) {
                Some((ts, e)) => Some((seq![t] + ts, e)),
                None => None,
            },
            None => None,
        }
    }
}

/// The program that `d` holds; bytes after it are ignored.
pub open spec fn de_program(d: Seq<u8>) -> Option<ProgramView> {
    match de_chunk(d, 0) {
        Some((c, p)) => match rd_u32(d, p) {
            Some((n, q)) => match de_strs(d, q, n as nat) {
                Some((gs, _)) => Some(ProgramView { chunk: c, globals: gs }),
                None => None,
            },
            None => None,
        },
        None => None,
    }
}


// ---------------------------------------------------------------------
// What the cache gives back

/// A string fits the format: its UTF-8 length fits in four bytes.
pub open spec fn storable_str(t: Seq<char>) -> bool {
    encode_utf8(t).len() <= u32::MAX
}

/// A constant that the cache gives back as it was: no runtime-only value, and every
/// length fits in four bytes.
pub open spec fn storable_value(v: ValueView) -> bool
    decreases v,
{
    match v {
        ValueView::Str(t) => storable_str(t),
        ValueView::Func(_, name, c) => (match name {
            Some(n) => storable_str(n),
            None => true,
        }) && storable_chunk(c),
        ValueView::Array => false,
        ValueView::Object => false,
        ValueView::StrArray2D => false,
        ValueView::List => false,
        ValueView::Dict => false,
        _ => true,
    }
}

pub open spec fn storable_chunk(c: ChunkView) -> bool
    decreases c,
{
    c.code.len() <= u32::MAX && c.consts.len() <= u32::MAX && storable_values(c.consts)
}

pub open spec fn storable_values(vs: Seq<ValueView>) -> bool
    decreases vs,
{
    vs.len() == 0 || (storable_value(vs[0]) && storable_values(vs.drop_first()))
}

pub open spec fn storable_strs(ss: Seq<Seq<char>>) -> bool {
    forall|i: int| 0 <= i < ss.len() ==> storable_str(#[trigger] ss[i])
}

pub open spec fn storable_program(p: ProgramView) -> bool {
    storable_chunk(p.chunk) && p.globals.len() <= u32::MAX && storable_strs(p.globals)
}

proof fn lemma_u32_bytes(v: u32)
    ensures
        u32_of((v & 0xff) as u8, ((v >> 8) & 0xff) as u8, ((v >> 16) & 0xff) as u8, ((v >> 24) & 0xff) as u8) == v,
{
    assert(((((v & 0xff) as u8) as u32) | (((((v >> 8) & 0xff) as u8) as u32) << 8) | (((((v >> 16) & 0xff) as u8) as u32) << 16)
        | (((((v >> 24) & 0xff) as u8) as u32) << 24)) == v) by (bit_vector);
}

proof fn lemma_u64_bytes(v: u64)
    ensures
        u64_of(le64(v), 0) == v,
{
    let b = le64(v);
    assert(((((v & 0xff) as u8) as u64) | (((((v >> 8) & 0xff) as u8) as u64) << 8) | (((((v >> 16) & 0xff) as u8) as u64) << 16)
        | (((((v >> 24) & 0xff) as u8) as u64) << 24) | (((((v >> 32) & 0xff) as u8) as u64) << 32) | (((((v >> 40) & 0xff) as u8) as u64) << 40)
        | (((((v >> 48) & 0xff) as u8) as u64) << 48) | (((((v >> 56) & 0xff) as u8) as u64) << 56)) == v) by (bit_vector);
}

proof fn lemma_i64_bits(i: i64)
    ensures
        (i as u64) as i64 == i,
{
    assert((i as u64) as i64 == i) by (bit_vector);
}

proof fn lemma_rd_u32(pre: Seq<u8>, v: u32, post: Seq<u8>)
    ensures
        rd_u32(pre + le32(v) + post, pre.len() as int) == Some((v, (pre.len() + 4) as int)),
{
    let d = pre + le32(v) + post;
    let p = pre.len() as int;
    assert(d[p] == le32(v)[0]);
    assert(d[p + 1] == le32(v)[1]);
    assert(d[p + 2] == le32(v)[2]);
    assert(d[p + 3] == le32(v)[3]);
    lemma_u32_bytes(v);
}

proof fn lemma_rd_u64(pre: Seq<u8>, v: u64, post: Seq<u8>)
    ensures
        rd_u64(pre + le64(v) + post, pre.len() as int) == Some((v, (pre.len() + 8) as int)),
{
    let d = pre + le64(v) + post;
    let p = pre.len() as int;
    lemma_u64_bytes(v);
    assert forall|k: int| 0 <= k < 8 implies d[p + k] == le64(v)[k] by {}
    assert(u64_of(d, p) == u64_of(le64(v), 0));
}

proof fn lemma_rd_str(pre: Seq<u8>, t: Seq<char>, post: Seq<u8>)
    requires
        storable_str(t),
    ensures
        rd_str(pre + ser_str(t) + post, pre.len() as int) == Some((t, (pre.len() + ser_str(t).len()) as int)),
{
    let b = encode_utf8(t);
    let n = b.len() as u32;
    let d = pre + ser_str(t) + post;
    assert(d =~= pre + le32(n) + (b + post));
    lemma_rd_u32(pre, n, b + post);
    let q = pre.len() + 4;
    assert(d.subrange(q as int, q + n) =~= b);
    vstd::utf8::encode_utf8_valid_utf8(t);
    vstd::utf8::encode_utf8_decode_utf8(t);
}

proof fn lemma_ser_value_nonempty(v: ValueView)
    ensures
        ser_value(v).len() > 0,
{
}

proof fn lemma_scalar_roundtrip(pre: Seq<u8>, v: ValueView, post: Seq<u8>)
    requires
        storable_value(v),
        !(v is Func),
    ensures
        de_value(pre + ser_value(v) + post, pre.len() as int) == Some((v, (pre.len() + ser_value(v).len()) as int)),
{
    let d = pre + ser_value(v) + post;
    let p = pre.len() as int;
    assert(d[p] == ser_value(v)[0]);
    match v {
        ValueView::Bool(x) => {
            assert(d[p + 1] == ser_value(v)[1]);
        },
        ValueView::Num(n) => {
            assert(d =~= (pre + seq![2u8]) + le64(n) + post);
            lemma_rd_u64(pre + seq![2u8], n, post);
        },
        ValueView::Int(i) => {
            assert(d =~= (pre + seq![3u8]) + le64(i as u64) + post);
            lemma_rd_u64(pre + seq![3u8], i as u64, post);
            lemma_i64_bits(i);
        },
        ValueView::Str(t) => {
            assert(d =~= (pre + seq![4u8]) + ser_str(t) + post);
            lemma_rd_str(pre + seq![4u8], t, post);
        },
        _ => {},
    }
}

/// Where the name of a function constant ends, and what it reads as.
proof fn lemma_func_name(pre: Seq<u8>, arity: u8, name: Option<Seq<char>>, rest: Seq<u8>)
    requires
        match name {
            Some(n) => storable_str(n),
            None => true,
        },
    ensures
        ({
            let nb = match name {
                Some(n) => seq![1u8] + ser_str(n),
                None => seq![0u8],
            };
            let d = pre + seq![5u8, arity] + nb + rest;
            let p = pre.len() as int;
            &&& d[p] == 5u8
            &&& d[p + 1] == arity
            &&& (d[p + 2] != 0) == (name is Some)
            &&& p + 3 <= d.len()
            &&& (name is Some ==> rd_str(d, p + 3) == Some((name->0, (pre.len() + 2 + nb.len()) as int)))
            &&& (name is None ==> nb.len() == 1)
        }),
{
    let nb = match name {
        Some(n) => seq![1u8] + ser_str(n),
        None => seq![0u8],
    };
    let d = pre + seq![5u8, arity] + nb + rest;
    let p = pre.len() as int;
    assert(d[p] == 5u8);
    assert(d[p + 1] == arity);
    assert(d[p + 2] == nb[0]);
    match name {
        Some(n) => {
            assert(d =~= (pre + seq![5u8, arity] + seq![1u8]) + ser_str(n) + rest);
            lemma_rd_str(pre + seq![5u8, arity] + seq![1u8], n, rest);
        },
        None => {},
    }
}

proof fn lemma_value_roundtrip(pre: Seq<u8>, v: ValueView, post: Seq<u8>)
    requires
        storable_value(v),
    ensures
        de_value(pre + ser_value(v) + post, pre.len() as int) == Some((v, (pre.len() + ser_value(v).len()) as int)),
    decreases v, 1int,
{
    if v is Func {
        lemma_func_roundtrip(pre, v, post);
    } else {
        lemma_scalar_roundtrip(pre, v, post);
    }
}

#[verifier::rlimit(40)]
proof fn lemma_func_roundtrip(pre: Seq<u8>, v: ValueView, post: Seq<u8>)
    requires
        storable_value(v),
        v is Func,
    ensures
        de_value(pre + ser_value(v) + post, pre.len() as int) == Some((v, (pre.len() + ser_value(v).len()) as int)),
    decreases v, 0int,
{
    match v {
        ValueView::Func(arity, name, c) => {
            let nb = match name {
                Some(n) => seq![1u8] + ser_str(n),
                None => seq![0u8],
            };
            let d = pre + ser_value(v) + post;
            let p = pre.len() as int;
            assert(ser_value(v) == seq![5u8, arity] + nb + ser_chunk(c));
            assert(d =~= pre + seq![5u8, arity] + nb + (ser_chunk(c) + post));
            lemma_func_name(pre, arity, name, ser_chunk(c) + post);
            let pre2 = pre + seq![5u8, arity] + nb;
            assert(d =~= pre2 + ser_chunk(c) + post);
            lemma_chunk_roundtrip(pre2, c, post);
            let q = pre2.len() as int;
            let name_end: Option<(Option<Seq<char>>, int)> = if d[p + 2] != 0 {
                match rd_str(d, p + 3) {
                    Some((n, q)) => Some((Some(n), q)),
                    None => None,
                }
            } else {
                Some((None, p + 3))
            };
            assert(name_end == Some((name, q)));
            assert(de_chunk(d, q) == Some((c, (pre2.len() + ser_chunk(c).len()) as int)));
        },
        _ => {},
    }
}

proof fn lemma_chunk_roundtrip(pre: Seq<u8>, c: ChunkView, post: Seq<u8>)
    requires
        storable_chunk(c),
    ensures
        de_chunk(pre + ser_chunk(c) + post, pre.len() as int) == Some((c, (pre.len() + ser_chunk(c).len()) as int)),
    decreases c, 0int,
{
    let d = pre + ser_chunk(c) + post;
    let p = pre.len() as int;
    let cl = c.code.len() as u32;
    let n = c.consts.len() as u32;
    assert(d =~= pre + le32(cl) + (c.code + le32(n) + ser_values(c.consts) + post));
    lemma_rd_u32(pre, cl, c.code + le32(n) + ser_values(c.consts) + post);
    let q = p + 4;
    assert(d.subrange(q as int, q + cl) =~= c.code);
    assert(d =~= (pre + le32(cl) + c.code) + le32(n) + (ser_values(c.consts) + post));
    lemma_rd_u32(pre + le32(cl) + c.code, n, ser_values(c.consts) + post);
    assert(d =~= (pre + le32(cl) + c.code + le32(n)) + ser_values(c.consts) + post);
    lemma_values_roundtrip(pre + le32(cl) + c.code + le32(n), c.consts, post);
}

proof fn lemma_values_roundtrip(pre: Seq<u8>, vs: Seq<ValueView>, post: Seq<u8>)
    requires
        storable_values(vs),
    ensures
        de_values(pre + ser_values(vs) + post, pre.len() as int, vs.len()) == Some((vs, (pre.len() + ser_values(vs).len()) as int)),
    decreases vs, 0int,
{
    let d = pre + ser_values(vs) + post;
    if vs.len() > 0 {
        let v = vs[0];
        let rest = vs.drop_first();
        assert(d =~= pre + ser_value(v) + (ser_values(rest) + post));
        lemma_value_roundtrip(pre, v, ser_values(rest) + post);
        lemma_ser_value_nonempty(v);
        assert(d =~= (pre + ser_value(v)) + ser_values(rest) + post);
        lemma_values_roundtrip(pre + ser_value(v), rest, post);
        assert(seq![v] + rest =~= vs);
    }
}

proof fn lemma_strs_roundtrip(pre: Seq<u8>, ss: Seq<Seq<char>>, post: Seq<u8>)
    requires
        storable_strs(ss),
    ensures
        de_strs(pre + ser_strs(ss) + post, pre.len() as int, ss.len()) == Some((ss, (pre.len() + ser_strs(ss).len()) as int)),
    decreases ss.len(),
{
    let d = pre + ser_strs(ss) + post;
    if ss.len() > 0 {
        let t = ss[0];
        let rest = ss.drop_first();
        assert(storable_str(t));
        assert(d =~= pre + ser_str(t) + (ser_strs(rest) + post));
        lemma_rd_str(pre, t, ser_strs(rest) + post);
        assert(d =~= (pre + ser_str(t)) + ser_strs(rest) + post);
        assert(storable_strs(rest)) by {
            assert forall|i: int| 0 <= i < rest.len() implies storable_str(#[trigger] rest[i]) by {
                assert(rest[i] == ss[i + 1]);
            }
        }
        lemma_strs_roundtrip(pre + ser_str(t), rest, post);
        assert(seq![t] + rest =~= ss);
    }
}

/// Reading back a written program gives the same program, whenever no constant is a
/// runtime-only value and every length fits in four bytes.
proof fn lemma_program_chunk(p: ProgramView)
    requires
        storable_chunk(p.chunk),
    ensures
        de_chunk(ser_program(p), 0) == Some((p.chunk, ser_chunk(p.chunk).len() as int)),
        rd_u32(ser_program(p), ser_chunk(p.chunk).len() as int) == Some((p.globals.len() as u32, (ser_chunk(p.chunk).len() + 4) as int)),
{
    let empty = Seq::<u8>::empty();
    let g = p.globals.len() as u32;
    let sc = ser_chunk(p.chunk);
    let ss = ser_strs(p.globals);
    assert(ser_program(p) =~= empty + sc + (le32(g) + ss));
    lemma_chunk_roundtrip(empty, p.chunk, le32(g) + ss);
    assert(ser_program(p) =~= sc + le32(g) + ss);
    lemma_rd_u32(sc, g, ss);
}

proof fn lemma_program_globals(p: ProgramView)
    requires
        storable_strs(p.globals),
    ensures
        de_strs(ser_program(p), (ser_chunk(p.chunk).len() + 4) as int, p.globals.len()) == Some((p.globals, ser_program(p).len() as int)),
{
    let empty = Seq::<u8>::empty();
    let g = p.globals.len() as u32;
    let sc = ser_chunk(p.chunk);
    let ss = ser_strs(p.globals);
    assert(ser_program(p) =~= (sc + le32(g)) + ss + empty);
    lemma_strs_roundtrip(sc + le32(g), p.globals, empty);
}

/// Reading back a written program gives the same program, whenever no constant is a
/// runtime-only value and every length fits in four bytes.
pub proof fn law_program_cache_roundtrip(p: ProgramView)
    requires
        storable_program(p),
    ensures
        de_program(ser_program(p)) == Some(p),
{
    lemma_program_chunk(p);
    lemma_program_globals(p);
    assert((p.globals.len() as u32) as nat == p.globals.len());
}


// ---------------------------------------------------------------------
// Writing the cache

proof fn lemma_ser_values_push(vs: Seq<ValueView>, v: ValueView)
    ensures
        ser_values(vs.push(v)) == ser_values(vs) + ser_value(v),
    decreases vs.len(),
{
    if vs.len() == 0 {
        assert(vs.push(v).drop_first() =~= Seq::<ValueView>::empty());
        assert(ser_values(Seq::<ValueView>::empty()) =~= Seq::<u8>::empty());
        assert(ser_values(vs.push(v)) =~= ser_value(v));
    } else {
        assert(vs.push(v).drop_first() =~= vs.drop_first().push(v));
        lemma_ser_values_push(vs.drop_first(), v);
        assert(ser_values(vs.push(v)) =~= ser_values(vs) + ser_value(v));
    }
}

proof fn lemma_ser_strs_push(ss: Seq<Seq<char>>, t: Seq<char>)
    ensures
        ser_strs(ss.push(t)) == ser_strs(ss) + ser_str(t),
    decreases ss.len(),
{
    if ss.len() == 0 {
        assert(ss.push(t).drop_first() =~= Seq::<Seq<char>>::empty());
        assert(ser_strs(Seq::<Seq<char>>::empty()) =~= Seq::<u8>::empty());
        assert(ser_strs(ss.push(t)) =~= ser_str(t));
    } else {
        assert(ss.push(t).drop_first() =~= ss.drop_first().push(t));
        lemma_ser_strs_push(ss.drop_first(), t);
        assert(ser_strs(ss.push(t)) =~= ser_strs(ss) + ser_str(t));
    }
}

pub(crate) proof fn lemma_values_view_len(s: Seq<ConstValue>)
    ensures
        values_view(s).len() == s.len(),
        forall|i: int| 0 <= i < s.len() ==> #[trigger] values_view(s)[i] == value_view(s[i]),
    decreases s.len(),
{
    if s.len() > 0 {
        lemma_values_view_len(s.drop_last());
    }
}

fn w_u32(b: &mut Vec<u8>, v: u32)
    ensures
        final(b)@ == old(b)@ + le32(v),
{
    b.push((v & 0xff) as u8);
    b.push(((v >> 8u32) & 0xff) as u8);
    b.push(((v >> 16u32) & 0xff) as u8);
    b.push(((v >> 24u32) & 0xff) as u8);
    assert(b@ =~= old(b)@ + le32(v));
}

fn w_u64(b: &mut Vec<u8>, v: u64)
    ensures
        final(b)@ == old(b)@ + le64(v),
{
    b.push((v & 0xff) as u8);
    b.push(((v >> 8u64) & 0xff) as u8);
    b.push(((v >> 16u64) & 0xff) as u8);
    b.push(((v >> 24u64) & 0xff) as u8);
    b.push(((v >> 32u64) & 0xff) as u8);
    b.push(((v >> 40u64) & 0xff) as u8);
    b.push(((v >> 48u64) & 0xff) as u8);
    b.push(((v >> 56u64) & 0xff) as u8);
    assert(b@ =~= old(b)@ + le64(v));
}

fn w_bytes(b: &mut Vec<u8>, s: &[u8])
    ensures
        final(b)@ == old(b)@ + s@,
{
    let mut i: usize = 0;
    while i < s.len()
        invariant
            i <= s@.len(),
            b@ == old(b)@ + s@.take(i as int),
        decreases s.len() - i,
    {
        b.push(s[i]);
        assert(s@.take(i + 1) =~= s@.take(i as int).push(s@[i as int]));
        i += 1;
    }
    assert(s@.take(s@.len() as int) =~= s@);
}

fn w_str(b: &mut Vec<u8>, s: &str)
    ensures
        final(b)@ == old(b)@ + ser_str(s@),
{
    let bytes = s.as_bytes();
    w_u32(b, bytes.len() as u32);
    w_bytes(b, bytes);
    assert(b@ =~= old(b)@ + ser_str(s@));
}

fn w_value(b: &mut Vec<u8>, v: &ConstValue)
    ensures
        final(b)@ == old(b)@ + ser_value(value_view(*v)),
    decreases v,
{
    match v {
        ConstValue::Null => {
            b.push(0);
        },
        ConstValue::Bool(x) => {
            b.push(1);
            b.push(if *x { 1 } else { 0 });
        },
        ConstValue::Num(n) => {
            b.push(2);
            w_u64(b, *n);
        },
        ConstValue::Int(i) => {
            b.push(3);
            w_u64(b, *i as u64);
        },
        ConstValue::Str(t) => {
            b.push(4);
            w_str(b, t.as_str());
        },
        ConstValue::Func(f) => {
            b.push(5);
            b.push(f.arity);
            match &f.name {
                Some(n) => {
                    b.push(1);
                    w_str(b, n.as_str());
                },
                None => {
                    b.push(0);
                },
            }
            w_chunk(b, &f.chunk);
        },
        ConstValue::Array => {
            b.push(250);
        },
        ConstValue::Object => {
            b.push(251);
        },
        ConstValue::StrArray2D => {
            b.push(252);
        },
        ConstValue::List => {
            b.push(253);
        },
        ConstValue::Dict => {
            b.push(254);
        },
    }
    assert(b@ =~= old(b)@ + ser_value(value_view(*v)));
}

fn w_chunk(b: &mut Vec<u8>, c: &Chunk)
    ensures
        final(b)@ == old(b)@ + ser_chunk(chunk_view(*c)),
    decreases c,
{
    w_u32(b, c.code.len() as u32);
    w_bytes(b, c.code.as_slice());
    w_u32(b, c.consts.len() as u32);
    let ghost start = b@;
    let mut i: usize = 0;
    while i < c.consts.len()
        invariant
            i <= c.consts@.len(),
            b@ == start + ser_values(values_view(c.consts@.take(i as int))),
        decreases c.consts.len() - i,
    {
        assert(c.consts@.take(i + 1).drop_last() =~= c.consts@.take(i as int));
        proof { lemma_ser_values_push(values_view(c.consts@.take(i as int)), value_view(c.consts@[i as int])); }
        w_value(b, &c.consts[i]);
        i += 1;
    }
    assert(c.consts@.take(c.consts@.len() as int) =~= c.consts@);
    proof { lemma_values_view_len(c.consts@); }
    assert(b@ =~= old(b)@ + ser_chunk(chunk_view(*c)));
}

/// The bytes of the program cache for `p`.
pub fn serialize_program(p: &Program) -> (r: Vec<u8>)
    ensures
        r@ == ser_program(program_view(*p)),
{
    let mut b: Vec<u8> = Vec::new();
    w_chunk(&mut b, &p.chunk);
    w_u32(&mut b, p.globals.len() as u32);
    let ghost start = b@;
    let mut i: usize = 0;
    while i < p.globals.len()
        invariant
            i <= p.globals@.len(),
            b@ == start + ser_strs(strs_view(p.globals@.take(i as int))),
        decreases p.globals.len() - i,
    {
        assert(strs_view(p.globals@.take(i + 1)) =~= strs_view(p.globals@.take(i as int)).push(p.globals@[i as int]@));
        proof { lemma_ser_strs_push(strs_view(p.globals@.take(i as int)), p.globals@[i as int]@); }
        w_str(&mut b, p.globals[i].as_str());
        i += 1;
    }
    assert(p.globals@.take(p.globals@.len() as int) =~= p.globals@);
    assert(b@ =~= ser_program(program_view(*p)));
    b
}


// ---------------------------------------------------------------------
// Reading the cache

#[verifier::external_type_specification]
#[verifier::external_body]
pub struct ExFromUtf8Error(FromUtf8Error);

/// `String::from_utf8`: the string that `bytes` encode in UTF-8, and an error exactly
/// when they are not valid UTF-8.
#[verifier::external_body]
fn string_from_utf8(bytes: Vec<u8>) -> (r: Result<String, FromUtf8Error>)
    ensures
        match r {
            Ok(s) => valid_utf8(bytes@) && s@ == decode_utf8(bytes@),
            Err(_) => !valid_utf8(bytes@),
        },
{
    String::from_utf8(bytes)
}

/// The text that `FromUtf8Error` displays. Nothing is claimed of it.
#[verifier::external_body]
fn utf8_error_text(e: &FromUtf8Error) -> String {
    format!("{}", e)
}

/// How a cache fails to read: the bytes end too soon, a constant has an unknown tag,
/// or a string is not UTF-8.
pub enum CacheFault {
    Eof,
    BadTag,
    Utf8,
}

/// The message of a fault: "eof", "bad const tag", or "utf8: " followed by the
/// decoder's own text.
pub open spec fn fault_message(f: CacheFault, m: Seq<char>) -> bool {
    match f {
        CacheFault::Eof => m == "eof"@,
        CacheFault::BadTag => m == "bad const tag"@,
        CacheFault::Utf8 => m.len() >= "utf8: "@.len() && m.take("utf8: "@.len() as int) == "utf8: "@,
    }
}

/// Why the string at `p` does not read (where it does not).
pub open spec fn flt_str(d: Seq<u8>, p: int) -> CacheFault {
    match rd_u32(d, p) {
        Some((n, q)) => if q + n <= d.len() {
            CacheFault::Utf8
        } else {
            CacheFault::Eof
        },
        None => CacheFault::Eof,
    }
}

/// Why the constant at `p` does not read (where it does not).
pub open spec fn flt_value(d: Seq<u8>, p: int) -> CacheFault
    decreases d.len() - p, 0int, 0int,
{
    if p < 0 || p >= d.len() {
        CacheFault::Eof
    } else {
        let tag = d[p];
        if tag == 4 {
            flt_str(d, p + 1)
        } else if tag == 5 {
            if p + 3 > d.len() {
                CacheFault::Eof
            } else if d[p + 2] != 0 {
                match rd_str(d, p + 3) {
                    None => flt_str(d, p + 3),
                    Some((_, q)) => if p < q <= d.len() {
                        flt_chunk(d, q)
                    } else {
                        CacheFault::Eof
                    },
                }
            } else {
                flt_chunk(d, p + 3)
            }
        } else if tag <= 3 || 250 <= tag <= 254 {
            CacheFault::Eof
        } else {
            CacheFault::BadTag
        }
    }
}

/// Why the chunk at `p` does not read (where it does not).
pub open spec fn flt_chunk(d: Seq<u8>, p: int) -> CacheFault
    decreases d.len() - p, 0int, 1int,
{
    if p < 0 || p > d.len() {
        CacheFault::Eof
    } else {
        match rd_u32(d, p) {
            Some((code_len, q)) => if q + code_len > d.len() {
                CacheFault::Eof
            } else {
                match rd_u32(d, q + code_len) {
                    Some((n, r)) => flt_values(d, r, n as nat),
                    None => CacheFault::Eof,
                }
            },
            None => CacheFault::Eof,
        }
    }
}

/// Why `n` constants from `p` on do not read (where they do not).
pub open spec fn flt_values(d: Seq<u8>, p: int, n: nat) -> CacheFault
    decreases d.len() - p, n, 2int,
{
    if p < 0 || p > d.len() || n == 0 {
        CacheFault::Eof
    } else {
        match de_value(d, p) {
            None => flt_value(d, p),
            Some((_, q)) => if p < q <= d.len() {
                flt_values(d, q, (n - 1) as nat)
            } else {
                CacheFault::Eof
            },
        }
    }
}

/// Why `n` strings from `p` on do not read (where they do not).
pub open spec fn flt_strs(d: Seq<u8>, p: int, n: nat) -> CacheFault
    decreases n,
{
    if n == 0 {
        CacheFault::Eof
    } else {
        match rd_str(d, p) {
            None => flt_str(d, p),
            Some((_, q)) => flt_strs(d, q, (n - 1) as nat),
        }
    }
}

/// Why `d` does not hold a program (where it does not).
pub open spec fn flt_program(d: Seq<u8>) -> CacheFault {
    match de_chunk(d, 0) {
        None => flt_chunk(d, 0),
        Some((_, p)) => match rd_u32(d, p) {
            None => CacheFault::Eof,
            Some((n, q)) => flt_strs(d, q, n as nat),
        },
    }
}

fn eof() -> (e: BasilError)
    ensures
        e.0@ == "eof"@,
{
    BasilError(string_of("eof"))
}

fn r_u8(p: &mut usize, d: &[u8]) -> (r: Result<u8, BasilError>)
    ensures
        match r {
            Ok(v) => rd_u8(d@, *old(p) as int) == Some((v, *final(p) as int)),
            Err(e) => rd_u8(d@, *old(p) as int) is None && e.0@ == "eof"@,
        },
{
    if *p >= d.len() {
        return Err(eof());
    }
    let v = d[*p];
    *p = *p + 1;
    Ok(v)
}

fn r_u32(p: &mut usize, d: &[u8]) -> (r: Result<u32, BasilError>)
    ensures
        match r {
            Ok(v) => rd_u32(d@, *old(p) as int) == Some((v, *final(p) as int)),
            Err(e) => rd_u32(d@, *old(p) as int) is None && e.0@ == "eof"@,
        },
{
    if d.len() < 4 || *p > d.len() - 4 {
        return Err(eof());
    }
    let q = *p;
    let v: u32 = (d[q] as u32) | ((d[q + 1] as u32) << 8u32) | ((d[q + 2] as u32) << 16u32) | ((d[q + 3] as u32) << 24u32);
    *p = q + 4;
    Ok(v)
}

fn r_u64(p: &mut usize, d: &[u8]) -> (r: Result<u64, BasilError>)
    ensures
        match r {
            Ok(v) => rd_u64(d@, *old(p) as int) == Some((v, *final(p) as int)),
            Err(e) => rd_u64(d@, *old(p) as int) is None && e.0@ == "eof"@,
        },
{
    if d.len() < 8 || *p > d.len() - 8 {
        return Err(eof());
    }
    let q = *p;
    let v: u64 = (d[q] as u64) | ((d[q + 1] as u64) << 8u64) | ((d[q + 2] as u64) << 16u64) | ((d[q + 3] as u64)
        << 24u64) | ((d[q + 4] as u64) << 32u64) | ((d[q + 5] as u64) << 40u64) | ((d[q + 6] as u64) << 48u64) | ((d[q
        + 7] as u64) << 56u64);
    *p = q + 8;
    Ok(v)
}

fn copy_bytes(d: &[u8], a: usize, b: usize) -> (r: Vec<u8>)
    requires
        a <= b <= d@.len(),
    ensures
        r@ == d@.subrange(a as int, b as int),
{
    let mut r: Vec<u8> = Vec::new();
    let mut k = a;
    while k < b
        invariant
            a <= k <= b <= d@.len(),
            r@ == d@.subrange(a as int, k as int),
        decreases b - k,
    {
        r.push(d[k]);
        assert(d@.subrange(a as int, k + 1) =~= d@.subrange(a as int, k as int).push(d@[k as int]));
        k += 1;
    }
    r
}

fn r_str(p: &mut usize, d: &[u8]) -> (r: Result<String, BasilError>)
    ensures
        match r {
            Ok(s) => rd_str(d@, *old(p) as int) == Some((s@, *final(p) as int)),
            Err(e) => rd_str(d@, *old(p) as int) is None && fault_message(flt_str(d@, *old(p) as int), e.0@),
        },
{
    let n = match r_u32(p, d) {
        Ok(v) => v,
        Err(e) => return Err(e),
    };
    let q = *p;
    if n as usize > d.len() || q > d.len() - n as usize {
        return Err(eof());
    }
    let bytes = copy_bytes(d, q, q + n as usize);
    match string_from_utf8(bytes) {
        Ok(s) => {
            *p = q + n as usize;
            Ok(s)
        },
        Err(e) => {
            let mut m = string_of("utf8: ");
            let t = utf8_error_text(&e);
            crate::text::push_str(&mut m, t.as_str());
            assert(m@.take("utf8: "@.len() as int) =~= "utf8: "@);
            Err(BasilError(m))
        },
    }
}

fn read_value(p: &mut usize, d: &[u8]) -> (r: Result<ConstValue, BasilError>)
    ensures
        match r {
            Ok(v) => de_value(d@, *old(p) as int) == Some((value_view(v), *final(p) as int)) && *old(p) < *final(p)
                <= d@.len(),
            Err(e) => de_value(d@, *old(p) as int) is None && fault_message(flt_value(d@, *old(p) as int), e.0@),
        },
    decreases d@.len() - *old(p), 0int,
{
    let p0 = *p;
    let tag = match r_u8(p, d) {
        Ok(v) => v,
        Err(e) => return Err(e),
    };
    if tag == 0 {
        Ok(ConstValue::Null)
    } else if tag == 1 {
        let b = match r_u8(p, d) {
        Ok(v) => v,
        Err(e) => return Err(e),
    };
        Ok(ConstValue::Bool(b != 0))
    } else if tag == 2 {
        let n = match r_u64(p, d) {
        Ok(v) => v,
        Err(e) => return Err(e),
    };
        Ok(ConstValue::Num(n))
    } else if tag == 3 {
        let n = match r_u64(p, d) {
        Ok(v) => v,
        Err(e) => return Err(e),
    };
        Ok(ConstValue::Int(n as i64))
    } else if tag == 4 {
        let t = match r_str(p, d) {
        Ok(v) => v,
        Err(e) => return Err(e),
    };
        Ok(ConstValue::Str(t))
    } else if tag == 5 {
        if d.len() < 3 || p0 > d.len() - 3 {
            return Err(eof());
        }
        let arity = match r_u8(p, d) {
        Ok(v) => v,
        Err(e) => return Err(e),
    };
        let has = match r_u8(p, d) {
            Ok(v) => v != 0,
            Err(e) => return Err(e),
        };
        let name = if has {
            match r_str(p, d) {
                Ok(t) => Some(t),
                Err(e) => return Err(e),
            }
        } else {
            None
        };
        let chunk = match read_chunk(p, d) {
        Ok(v) => v,
        Err(e) => return Err(e),
    };
        Ok(ConstValue::Func(Box::new(Function { arity, name, chunk })))
    } else if 250 <= tag && tag <= 254 {
        Ok(ConstValue::Null)
    } else {
        Err(BasilError(string_of("bad const tag")))
    }
}

fn read_chunk(p: &mut usize, d: &[u8]) -> (r: Result<Chunk, BasilError>)
    requires
        *old(p) <= d@.len(),
    ensures
        match r {
            Ok(c) => de_chunk(d@, *old(p) as int) == Some((chunk_view(c), *final(p) as int)) && *old(p) <= *final(p)
                <= d@.len(),
            Err(e) => de_chunk(d@, *old(p) as int) is None && fault_message(flt_chunk(d@, *old(p) as int), e.0@),
        },
    decreases d@.len() - *old(p), 1int,
{
    let code_len = match r_u32(p, d) {
        Ok(v) => v as usize,
        Err(e) => return Err(e),
    };
    let q = *p;
    if code_len > d.len() || q > d.len() - code_len {
        return Err(eof());
    }
    let code = copy_bytes(d, q, q + code_len);
    *p = q + code_len;
    let n = match r_u32(p, d) {
        Ok(v) => v,
        Err(e) => return Err(e),
    };
    let r0 = *p;
    assert(code@ == d@.subrange(q as int, q + code_len));
    assert(de_chunk(d@, *old(p) as int) == match de_values(d@, r0 as int, n as nat) {
        Some((vs, e)) => Some((ChunkView { code: code@, consts: vs }, e)),
        None => None,
    });
    let mut consts: Vec<ConstValue> = Vec::new();
    let mut k: u32 = 0;
    assert(values_view(consts@) =~= Seq::<ValueView>::empty());
    while k < n
        invariant
            *old(p) < r0 <= *p <= d@.len(),
            de_chunk(d@, *old(p) as int) == match de_values(d@, r0 as int, n as nat) {
                Some((vs, e)) => Some((ChunkView { code: code@, consts: vs }, e)),
                None => None,
            },
            k <= n,
            de_values(d@, r0 as int, n as nat) == prepend_values(values_view(consts@), de_values(d@, *p as int, (n - k) as nat)),
            flt_chunk(d@, *old(p) as int) == flt_values(d@, *p as int, (n - k) as nat),
        decreases n - k,
    {
        let ghost vs = values_view(consts@);
        let ghost cs = consts@;
        match read_value(p, d) {
            Ok(v) => {
                let ghost vv = value_view(v);
                consts.push(v);
                assert(consts@.drop_last() =~= cs);
                assert(values_view(consts@) == values_view(consts@.drop_last()).push(value_view(consts@.last())));
                assert(values_view(consts@) == vs.push(vv));
                proof {
                    match de_values(d@, *p as int, (n - k - 1) as nat) {
                        Some((rest, e)) => {
                            assert(vs + (seq![vv] + rest) =~= vs.push(vv) + rest);
                        },
                        None => {},
                    }
                }
            },
            Err(e) => {
                assert(de_values(d@, r0 as int, n as nat) is None);
                return Err(e);
            },
        }
        k += 1;
    }
    assert(values_view(consts@) + Seq::<ValueView>::empty() =~= values_view(consts@));
    Ok(Chunk { code, consts })
}

pub open spec fn prepend_values(acc: Seq<ValueView>, r: Option<(Seq<ValueView>, int)>) -> Option<(Seq<ValueView>, int)> {
    match r {
        Some((vs, e)) => Some((acc + vs, e)),
        None => None,
    }
}


pub open spec fn prepend_strs(acc: Seq<Seq<char>>, r: Option<(Seq<Seq<char>>, int)>) -> Option<(Seq<Seq<char>>, int)> {
    match r {
        Some((ts, e)) => Some((acc + ts, e)),
        None => None,
    }
}

/// The program that a cache holds; an error when the bytes do not hold one.
pub fn deserialize_program(data: &[u8]) -> (r: Result<Program, BasilError>)
    ensures
        match r {
            Ok(p) => de_program(data@) == Some(program_view(p)),
            Err(e) => de_program(data@) is None && fault_message(flt_program(data@), e.0@),
        },
{
    let mut p: usize = 0;
    let chunk = match read_chunk(&mut p, data) {
        Ok(c) => c,
        Err(e) => return Err(e),
    };
    let c_end = p;
    let n = match r_u32(&mut p, data) {
        Ok(v) => v,
        Err(e) => return Err(e),
    };
    let q = p;
    let mut globals: Vec<String> = Vec::new();
    let mut k: u32 = 0;
    assert(strs_view(globals@) =~= Seq::<Seq<char>>::empty());
    while k < n
        invariant
            de_chunk(data@, 0) == Some((chunk_view(chunk), c_end as int)),
            rd_u32(data@, c_end as int) == Some((n, q as int)),
            k <= n,
            de_strs(data@, q as int, n as nat) == prepend_strs(strs_view(globals@), de_strs(data@, p as int, (n - k) as nat)),
            flt_program(data@) == flt_strs(data@, p as int, (n - k) as nat),
        decreases n - k,
    {
        let ghost gs = strs_view(globals@);
        match r_str(&mut p, data) {
            Ok(t) => {
                let ghost tv = t@;
                globals.push(t);
                assert(strs_view(globals@) =~= gs.push(tv));
                proof {
                    match de_strs(data@, p as int, (n - k - 1) as nat) {
                        Some((rest, e)) => {
                            assert(gs + (seq![tv] + rest) =~= gs.push(tv) + rest);
                        },
                        None => {},
                    }
                }
            },
            Err(e) => {
                assert(de_strs(data@, q as int, n as nat) is None);
                return Err(e);
            },
        }
        k += 1;
    }
    assert(strs_view(globals@) + Seq::<Seq<char>>::empty() =~= strs_view(globals@));
    Ok(Program { chunk, globals })
}

} // verus!
