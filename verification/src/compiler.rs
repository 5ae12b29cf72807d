use vstd::prelude::*;

use crate::ast::{lemma_stmts_view_index, stmt_view, stmts_view, FuncKind, Stmt, StmtView, copy_expr, pattern_view, patterns_view, CasePattern, CasePatternView, exprs_view, expr_view, entries_view, field_view, fields_view, BinOp, Expr, ExprView, FieldKindView, FieldView, StructField, StructFieldKind};
use crate::bytecode::{chunk_view, le16, op_code, op_of_code, value_view, Chunk, ChunkView, ConstValue, Op, ValueView};
use crate::common::BasilError;
use crate::locals::LocalEnv;
use crate::template::{eq_ignore_case, eq_ignore_case_str};
use crate::text::{ascii_upper, decimal, push_char, push_decimal, push_str, str_eq, string_of, upper_seq};

verus! {

// ---------------------------------------------------------------------
// What the compiler knows while it emits an expression

/// A FUNC or SUB of the program, by its name in upper case.
pub struct Routine {
    pub name: String,
    pub arity: usize,
    pub is_sub: bool,
}

/// A TYPE definition, by its name in upper case.
pub struct StructType {
    pub name: String,
    pub fields: Vec<StructField>,
}

/// The tables of the program being compiled that expressions read. Each table is
/// searched from its start; a name is found at its first entry.
pub struct Tables {
    pub routines: Vec<Routine>,
    pub struct_types: Vec<StructType>,
    pub fixed_globs: Vec<(String, usize)>,
    pub var_struct_globs: Vec<(String, String)>,
    pub var_struct_array_globs: Vec<(String, String)>,
    /// The WITH targets in force (innermost last): the current one, and those of
    /// function and top-level blocks.
    pub with_current: Vec<String>,
    pub with_fn: Vec<String>,
    pub with_tl: Vec<String>,
    pub cur_line: u32,
    /// The IEEE-754 bits of each numeral written in the program.
    pub numerals: Vec<(String, u64)>,
}

/// The scope of a function being compiled: its local slots, and the fixed-length
/// strings and struct variables declared in it.
pub struct FnScope {
    pub env: LocalEnv,
    pub fixed: Vec<(String, usize)>,
    pub var_struct: Vec<(String, String)>,
    pub var_struct_array: Vec<(String, String)>,
}

pub struct TablesView {
    pub routines: Seq<(Seq<char>, usize, bool)>,
    pub types: Seq<(Seq<char>, Seq<FieldView>)>,
    pub fixed_globs: Seq<(Seq<char>, usize)>,
    pub var_struct_globs: Seq<(Seq<char>, Seq<char>)>,
    pub var_struct_array_globs: Seq<(Seq<char>, Seq<char>)>,
    pub with_current: Seq<Seq<char>>,
    pub with_fn: Seq<Seq<char>>,
    pub with_tl: Seq<Seq<char>>,
    pub cur_line: u32,
    pub numerals: Seq<(Seq<char>, u64)>,
}

pub struct ScopeView {
    pub locals: Map<Seq<char>, u8>,
    pub fixed: Seq<(Seq<char>, usize)>,
    pub var_struct: Seq<(Seq<char>, Seq<char>)>,
    pub var_struct_array: Seq<(Seq<char>, Seq<char>)>,
}

pub open spec fn pairs_view<X>(s: Seq<(String, X)>) -> Seq<(Seq<char>, X)> {
    s.map_values(|p: (String, X)| (p.0@, p.1))
}

pub open spec fn names_pairs_view(s: Seq<(String, String)>) -> Seq<(Seq<char>, Seq<char>)> {
    s.map_values(|p: (String, String)| (p.0@, p.1@))
}

pub open spec fn names_view(s: Seq<String>) -> Seq<Seq<char>> {
    s.map_values(|x: String| x@)
}

pub open spec fn tables_view(t: Tables) -> TablesView {
    TablesView {
        routines: t.routines@.map_values(|r: Routine| (r.name@, r.arity, r.is_sub)),
        types: t.struct_types@.map_values(|s: StructType| (s.name@, fields_view(s.fields@))),
        fixed_globs: pairs_view(t.fixed_globs@),
        var_struct_globs: names_pairs_view(t.var_struct_globs@),
        var_struct_array_globs: names_pairs_view(t.var_struct_array_globs@),
        with_current: names_view(t.with_current@),
        with_fn: names_view(t.with_fn@),
        with_tl: names_view(t.with_tl@),
        cur_line: t.cur_line,
        numerals: pairs_view(t.numerals@),
    }
}

pub open spec fn scope_view(s: FnScope) -> ScopeView {
    ScopeView {
        locals: s.env.bindings(),
        fixed: pairs_view(s.fixed@),
        var_struct: names_pairs_view(s.var_struct@),
        var_struct_array: names_pairs_view(s.var_struct_array@),
    }
}

pub open spec fn opt_scope_view(s: Option<&FnScope>) -> Option<ScopeView> {
    match s {
        Some(x) => Some(scope_view(*x)),
        None => None,
    }
}

// ---------------------------------------------------------------------
// Lookups

/// The value at the first entry named `k`.
pub open spec fn assoc<X>(s: Seq<(Seq<char>, X)>, k: Seq<char>) -> Option<X>
    decreases s.len(),
{
    if s.len() == 0 {
        None
    } else if s[0].0 == k {
        Some(s[0].1)
    } else {
        assoc(s.drop_first(), k)
    }
}

/// The index of the first occurrence of `k`.
pub open spec fn index_in(s: Seq<Seq<char>>, k: Seq<char>) -> Option<int>
    decreases s.len(),
{
    if s.len() == 0 {
        None
    } else if s[0] == k {
        Some(0)
    } else {
        match index_in(s.drop_first(), k) {
            Some(i) => Some(i + 1),
            None => None,
        }
    }
}

/// The routine named `u` (in upper case): its arity and whether it is a SUB.
pub open spec fn routine(rs: Seq<(Seq<char>, usize, bool)>, u: Seq<char>) -> Option<(usize, bool)>
    decreases rs.len(),
{
    if rs.len() == 0 {
        None
    } else if rs[0].0 == u {
        Some((rs[0].1, rs[0].2))
    } else {
        routine(rs.drop_first(), u)
    }
}

/// The global slot of `name`: its index, or a new one at the end; the index is
/// kept in a byte, as the bytecode stores it.
pub open spec fn gslot(g: Seq<Seq<char>>, name: Seq<char>) -> (Seq<Seq<char>>, u8) {
    match index_in(g, name) {
        Some(i) => (g, i as u8),
        None => (g.push(name), g.len() as u8),
    }
}

/// The bits of a numeral; a numeral missing from the table counts as 0.
pub open spec fn numeral_bits(ns: Seq<(Seq<char>, u64)>, t: Seq<char>) -> u64 {
    match assoc(ns, t) {
        Some(b) => b,
        None => 0,
    }
}

// ---------------------------------------------------------------------
// Struct types

/// The kind of the field of type `ty` named `field` (case ignored).
pub open spec fn field_kind_in(fs: Seq<FieldView>, field: Seq<char>) -> Option<FieldKindView>
    decreases fs.len(),
{
    if fs.len() == 0 {
        None
    } else if eq_ignore_case(fs[0].name, field) {
        Some(fs[0].kind)
    } else {
        field_kind_in(fs.drop_first(), field)
    }
}

pub open spec fn field_kind_of(t: TablesView, ty: Seq<char>, field: Seq<char>) -> Option<FieldKindView> {
    match assoc(t.types, upper_seq(ty)) {
        Some(fs) => field_kind_in(fs, field),
        None => None,
    }
}

/// The struct type of an expression at top level, when it is known.
pub open spec fn struct_type_of(t: TablesView, sc: Option<ScopeView>, e: ExprView) -> Option<Seq<char>>
    decreases e,
{
    match e {
        ExprView::Var(name) => match sc {
            Some(s) => match assoc(s.var_struct, name) {
                Some(x) => Some(x),
                None => assoc(t.var_struct_globs, name),
            },
            None => assoc(t.var_struct_globs, name),
        },
        ExprView::Call { callee, .. } => match *callee {
            ExprView::Var(arr) => match sc {
                Some(s) => match assoc(s.var_struct_array, arr) {
                    Some(x) => Some(x),
                    None => assoc(t.var_struct_array_globs, arr),
                },
                None => assoc(t.var_struct_array_globs, arr),
            },
            _ => None,
        },
        ExprView::MemberGet { target, name } => match struct_type_of(t, sc, *target) {
            Some(parent) => match field_kind_of(t, parent, name) {
                Some(FieldKindView::Struct(nested)) => Some(upper_seq(nested)),
                _ => None,
            },
            None => None,
        },
        _ => None,
    }
}

/// The fixed byte size of struct type `ty` and the types seen so far: the sum of its
/// fields' sizes, or none when a field is a variable-length string, a type is
/// unknown, or a type comes again (so a cycle, or a second use of a nested type,
/// gives none). `fuel` bounds the nesting; it is never the limit, since each level
/// adds a new type to `seen`.
pub open spec fn struct_size(t: TablesView, ty: Seq<char>, seen: Seq<Seq<char>>, fuel: nat) -> (Option<usize>, Seq<Seq<char>>)
    decreases fuel, 0nat, 0nat,
{
    let key = upper_seq(ty);
    match assoc(t.types, key) {
        None => (None, seen),
        Some(fs) => if seen.contains(key) || fuel == 0 {
            (None, seen)
        } else {
            fields_size(t, fs, seen.push(key), (fuel - 1) as nat, 0)
        },
    }
}

/// The fields' sizes added to `total`.
pub open spec fn fields_size(t: TablesView, fs: Seq<FieldView>, seen: Seq<Seq<char>>, fuel: nat, total: usize) -> (Option<usize>, Seq<Seq<char>>)
    decreases fuel, 1nat, fs.len(),
{
    if fs.len() == 0 {
        (Some(total), seen)
    } else {
        let plain: Option<usize> = match fs[0].kind {
            FieldKindView::Int32 => Some(4usize),
            FieldKindView::Float64 => Some(8usize),
            FieldKindView::FixedString(n) => Some(n),
            _ => None,
        };
        match fs[0].kind {
            FieldKindView::Int32 | FieldKindView::Float64 | FieldKindView::FixedString(_) => {
                let n = plain->Some_0;
                if total + n <= usize::MAX {
                    fields_size(t, fs.drop_first(), seen, fuel, (total + n) as usize)
                } else {
                    (None, seen)
                }
            },
            FieldKindView::VarString => (None, seen),
            FieldKindView::Struct(nm) => {
                let (r, seen2) = struct_size(t, nm, seen, fuel);
                match r {
                    None => (None, seen2),
                    Some(n) => if total + n <= usize::MAX {
                        fields_size(t, fs.drop_first(), seen2, fuel, (total + n) as usize)
                    } else {
                        (None, seen2)
                    },
                }
            },
        }
    }
}

pub open spec fn struct_fixed_size(t: TablesView, ty: Seq<char>) -> Option<usize> {
    struct_size(t, ty, seq![], t.types.len()).0
}

// ---------------------------------------------------------------------
// SUB calls in value position

pub open spec fn has_sub_call(rs: Seq<(Seq<char>, usize, bool)>, e: ExprView) -> bool
    decreases e,
{
    match e {
        ExprView::Call { callee, args } => {
            let direct = match *callee {
                ExprView::Var(name) => match routine(rs, upper_seq(name)) {
                    Some((_, is_sub)) => is_sub,
                    None => false,
                },
                _ => false,
            };
            direct || any_sub_call(rs, args)
        },
        ExprView::UnaryNeg(x) => has_sub_call(rs, *x),
        ExprView::UnaryNot(x) => has_sub_call(rs, *x),
        ExprView::Binary { lhs, rhs, .. } => has_sub_call(rs, *lhs) || has_sub_call(rs, *rhs),
        ExprView::MemberGet { target, .. } => has_sub_call(rs, *target),
        ExprView::MemberCall { target, args, .. } => has_sub_call(rs, *target) || any_sub_call(rs, args),
        ExprView::NewObject { args, .. } => any_sub_call(rs, args),
        ExprView::NewClass { filename } => has_sub_call(rs, *filename),
        ExprView::Eval(x) => has_sub_call(rs, *x),
        _ => false,
    }
}

pub open spec fn any_sub_call(rs: Seq<(Seq<char>, usize, bool)>, es: Seq<ExprView>) -> bool
    decreases es,
{
    if es.len() == 0 {
        false
    } else {
        any_sub_call(rs, es.drop_last()) || has_sub_call(rs, es.last())
    }
}

// ---------------------------------------------------------------------
// Emitting into a chunk, as values

pub open spec fn c_op(c: ChunkView, o: Op) -> ChunkView {
    ChunkView { code: c.code.push(op_code(o)), consts: c.consts }
}

pub open spec fn c_u8(c: ChunkView, b: u8) -> ChunkView {
    ChunkView { code: c.code.push(b), consts: c.consts }
}

pub open spec fn c_u16(c: ChunkView, n: u16) -> ChunkView {
    ChunkView { code: c.code + le16(n), consts: c.consts }
}

/// The chunk with constant `v` added, and its index as `add_const` gives it.
pub open spec fn c_const(c: ChunkView, v: ValueView) -> (ChunkView, u16) {
    (ChunkView { code: c.code, consts: c.consts.push(v) }, (c.consts.len() as int) as u16)
}

/// Two zero bytes to be patched, and where they are.
pub open spec fn c_hole(c: ChunkView) -> (ChunkView, int) {
    (ChunkView { code: c.code + seq![0u8, 0u8], consts: c.consts }, c.code.len() as int)
}

pub open spec fn c_patch(c: ChunkView, at: int, v: u16) -> ChunkView {
    ChunkView { code: c.code.update(at, le16(v)[0]).update(at + 1, le16(v)[1]), consts: c.consts }
}

/// `v` added as a constant and loaded by `o` (`Const`, `GetProp`, ...).
pub open spec fn c_load(c: ChunkView, o: Op, v: ValueView) -> ChunkView {
    let (c1, i) = c_const(c, v);
    c_u16(c_op(c1, o), i)
}

/// The distance of a forward jump from the operand at `site` to `target`.
pub open spec fn fwd(target: int, site: int) -> u16 {
    (target - (site + 2)) as u16
}

pub open spec fn sub_call_msg() -> Seq<char> {
    "SUB call has no value; cannot be used in an expression. Call it as a statement: NAME(...);"@
}

pub open spec fn with_msg(line: u32) -> Seq<char> {
    "Leading '.' member requires a WITH block (at line "@ + decimal(line as nat) + ")"@
}

/// The built-in functions called by name, and their numbers.
pub open spec fn builtin_id(u: Seq<char>) -> Option<u8> {
    if u == "LEN"@ { Some(1) }
    else if u == "MID$"@ { Some(2) }
    else if u == "LEFT$"@ { Some(3) }
    else if u == "RIGHT$"@ { Some(4) }
    else if u == "INSTR"@ { Some(5) }
    else if u == "INPUT$"@ || u == "INPUT"@ { Some(6) }
    else if u == "INKEY$"@ { Some(7) }
    else if u == "INKEY%"@ { Some(8) }
    else if u == "TYPE$"@ { Some(9) }
    else if u == "HTML$"@ || u == "HTML"@ { Some(10) }
    else if u == "GET$"@ { Some(11) }
    else if u == "POST$"@ { Some(12) }
    else if u == "REQUEST$"@ { Some(13) }
    else if u == "UCASE$"@ { Some(14) }
    else if u == "LCASE$"@ { Some(15) }
    else if u == "TRIM$"@ { Some(16) }
    else if u == "CHR$"@ { Some(17) }
    else if u == "ASC%"@ { Some(18) }
    else if u == "INPUTC$"@ { Some(19) }
    else if u == "ESCAPE$"@ { Some(20) }
    else if u == "UNESCAPE$"@ { Some(21) }
    else if u == "URLENCODE$"@ { Some(22) }
    else if u == "URLDECODE$"@ { Some(23) }
    else if u == "STRING$"@ { Some(26) }
    else if u == "SLEEP"@ { Some(24) }
    else if u == "FOPEN"@ { Some(40) }
    else if u == "FCLOSE"@ { Some(41) }
    else if u == "FFLUSH"@ { Some(42) }
    else if u == "FEOF"@ { Some(43) }
    else if u == "FTELL&"@ { Some(44) }
    else if u == "FSEEK"@ { Some(45) }
    else if u == "FREAD$"@ { Some(46) }
    else if u == "FREADLINE$"@ { Some(47) }
    else if u == "FWRITE"@ { Some(48) }
    else if u == "FWRITELN"@ { Some(49) }
    else if u == "READFILE$"@ { Some(50) }
    else if u == "WRITEFILE"@ { Some(51) }
    else if u == "APPENDFILE"@ { Some(52) }
    else if u == "COPY"@ { Some(53) }
    else if u == "MOVE"@ { Some(54) }
    else if u == "RENAME"@ { Some(55) }
    else if u == "DELETE"@ { Some(56) }
    else if u == "DIR$"@ { Some(57) }
    else if u == "ENV$"@ { Some(58) }
    else if u == "LOADENV%"@ { Some(63) }
    else if u == "MKDIRS%"@ { Some(62) }
    else if u == "ARRAY_ROWS%"@ { Some(139) }
    else if u == "ARRAY_COLS%"@ { Some(140) }
    else { None }
}

pub open spec fn binop_code(op: BinOp) -> u8 {
    match op {
        BinOp::Add => op_code(Op::Add),
        BinOp::Sub => op_code(Op::Sub),
        BinOp::Mul => op_code(Op::Mul),
        BinOp::Div => op_code(Op::Div),
        BinOp::Mod => op_code(Op::Mod),
        BinOp::Eq => op_code(Op::Eq),
        BinOp::Ne => op_code(Op::Ne),
        BinOp::Lt => op_code(Op::Lt),
        BinOp::Le => op_code(Op::Le),
        BinOp::Gt => op_code(Op::Gt),
        BinOp::Ge => op_code(Op::Ge),
        _ => 0,
    }
}

/// `LEN(x)` known at compile time: a fixed-length string's length, a struct
/// variable's or a TYPE's fixed size, or a fixed-length field's length.
pub open spec fn len_fold(t: TablesView, sc: Option<ScopeView>, g: Seq<Seq<char>>, a: ExprView) -> Option<usize> {
    match a {
        ExprView::Var(vn) => {
            let local_fixed = match sc {
                Some(s) => assoc(s.fixed, vn),
                None => None,
            };
            if local_fixed is Some {
                local_fixed
            } else if assoc(t.fixed_globs, vn) is Some {
                assoc(t.fixed_globs, vn)
            } else {
                let ty = match sc {
                    Some(s) => match assoc(s.var_struct, vn) {
                        Some(x) => Some(x),
                        None => assoc(t.var_struct_globs, vn),
                    },
                    None => assoc(t.var_struct_globs, vn),
                };
                if ty is Some && struct_fixed_size(t, ty->Some_0) is Some {
                    struct_fixed_size(t, ty->Some_0)
                } else {
                    let bound = (match sc {
                        Some(s) => s.locals.dom().contains(vn),
                        None => false,
                    }) || index_in(g, vn) is Some;
                    let key = upper_seq(vn);
                    if !bound && assoc(t.types, key) is Some {
                        Some(
                            match struct_fixed_size(t, key) {
                                Some(n) => n,
                                None => 0,
                            },
                        )
                    } else {
                        None
                    }
                }
            }
        },
        ExprView::MemberGet { target, name } => match struct_type_of(t, sc, *target) {
            Some(ty) => match field_kind_of(t, ty, name) {
                Some(FieldKindView::FixedString(n)) => Some(n),
                _ => None,
            },
            None => None,
        },
        _ => None,
    }
}

/// Loads the variable `name`: a local slot when the scope binds it, else a global.
pub open spec fn load_var(sc: Option<ScopeView>, g: Seq<Seq<char>>, c: ChunkView, name: Seq<char>) -> (Seq<Seq<char>>, ChunkView) {
    if sc is Some && sc->Some_0.locals.dom().contains(name) {
        (g, c_u8(c_op(c, Op::LoadLocal), sc->Some_0.locals[name]))
    } else {
        let (g1, slot) = gslot(g, name);
        (g1, c_u8(c_op(c, Op::LoadGlobal), slot))
    }
}

/// After the operand of NOT: true becomes false and the rest true.
pub open spec fn not_tail(c1: ChunkView) -> ChunkView {
    let (c2, jf) = c_hole(c_op(c1, Op::JumpIfFalse));
    let (c3, cf) = c_const(c2, ValueView::Bool(false));
    let c4 = c_u16(c_op(c3, Op::Const), cf);
    let (c5, jend) = c_hole(c_op(c4, Op::Jump));
    let c6 = c_patch(c5, jf, fwd(c5.code.len() as int, jf));
    let (c7, ct) = c_const(c6, ValueView::Bool(true));
    let c8 = c_u16(c_op(c7, Op::Const), ct);
    c_patch(c8, jend, fwd(c8.code.len() as int, jend))
}

/// After both operands of AND, whose first test waits at `jl`.
pub open spec fn and_tail(c3: ChunkView, jl: int) -> ChunkView {
    let (c4, jr) = c_hole(c_op(c3, Op::JumpIfFalse));
    let (c5, ct) = c_const(c4, ValueView::Bool(true));
    let c6 = c_u16(c_op(c5, Op::Const), ct);
    let (c7, jend) = c_hole(c_op(c6, Op::Jump));
    let lf = c7.code.len() as int;
    let c8 = c_patch(c_patch(c7, jl, fwd(lf, jl)), jr, fwd(lf, jr));
    let (c9, cf) = c_const(c8, ValueView::Bool(false));
    let c10 = c_u16(c_op(c9, Op::Const), cf);
    c_patch(c10, jend, fwd(c10.code.len() as int, jend))
}

/// After the first operand of OR: a true value gives true; the jump to the end waits
/// at the returned position.
pub open spec fn or_head(c1: ChunkView) -> (ChunkView, int) {
    let (c2, jr) = c_hole(c_op(c1, Op::JumpIfFalse));
    let (c3, ct) = c_const(c2, ValueView::Bool(true));
    let c4 = c_u16(c_op(c3, Op::Const), ct);
    let (c5, jend) = c_hole(c_op(c4, Op::Jump));
    (c_patch(c5, jr, fwd(c5.code.len() as int, jr)), jend)
}

/// After the second operand of OR.
pub open spec fn or_tail(c7: ChunkView, jend: int) -> ChunkView {
    let (c8, jf) = c_hole(c_op(c7, Op::JumpIfFalse));
    let (c9, ct2) = c_const(c8, ValueView::Bool(true));
    let c10 = c_u16(c_op(c9, Op::Const), ct2);
    let (c11, jend2) = c_hole(c_op(c10, Op::Jump));
    let c12 = c_patch(c11, jf, fwd(c11.code.len() as int, jf));
    let (c13, cf) = c_const(c12, ValueView::Bool(false));
    let c14 = c_u16(c_op(c13, Op::Const), cf);
    let le = c14.code.len() as int;
    c_patch(c_patch(c14, jend, fwd(le, jend)), jend2, fwd(le, jend2))
}

/// The code of expression `e`, emitted into `c` with globals `g`: the new globals
/// and chunk, or the error message.
pub open spec fn ex(t: TablesView, sc: Option<ScopeView>, g: Seq<Seq<char>>, c: ChunkView, e: ExprView) -> Result<
    (Seq<Seq<char>>, ChunkView),
    Seq<char>,
>
    decreases e, 1nat,
{
    if has_sub_call(t.routines, e) {
        Err(sub_call_msg())
    } else {
        match e {
            ExprView::Number(n) => Ok((g, c_load(c, Op::Const, ValueView::Num(numeral_bits(t.numerals, n))))),
            ExprView::Str(s) => Ok((g, c_load(c, Op::Const, ValueView::Str(s)))),
            ExprView::Bool(b) => Ok((g, c_load(c, Op::Const, ValueView::Bool(b)))),
            ExprView::List(items) => match ex_list(t, sc, g, c, items) {
                Ok((g1, c1)) => Ok((g1, c_u8(c_u8(c_op(c1, Op::Builtin), 251), items.len() as u8))),
                Err(m) => Err(m),
            },
            ExprView::Dict(entries) => match ex_dict(t, sc, g, c, entries) {
                Ok((g1, c1)) => Ok((g1, c_u8(c_u8(c_op(c1, Op::Builtin), 252), ((entries.len() % 128) * 2) as u8))),
                Err(m) => Err(m),
            },
            ExprView::IndexSquare { target, index } => match ex(t, sc, g, c, *target) {
                Ok((g1, c1)) => match ex(t, sc, g1, c1, *index) {
                    Ok((g2, c2)) => Ok((g2, c_u8(c_u8(c_op(c2, Op::Builtin), 253), 2))),
                    Err(m) => Err(m),
                },
                Err(m) => Err(m),
            },
            ExprView::Var(name) => {
                let u = upper_seq(name);
                if u == "PRO"@ {
                    Ok((g, c_load(c, Op::Const, ValueView::Int(1))))
                } else if u == "NOT_PRO"@ {
                    Ok((g, c_load(c, Op::Const, ValueView::Int(0))))
                } else {
                    Ok(load_var(sc, g, c, name))
                }
            },
            ExprView::UnaryNeg(x) => match ex(t, sc, g, c, *x) {
                Ok((g1, c1)) => Ok((g1, c_op(c1, Op::Neg))),
                Err(m) => Err(m),
            },
            ExprView::UnaryNot(x) => match ex(t, sc, g, c, *x) {
                Ok((g1, c1)) => Ok((g1, not_tail(c1))),
                Err(m) => Err(m),
            },
            ExprView::Binary { op, lhs, rhs } => match op {
                BinOp::And => match ex(t, sc, g, c, *lhs) {
                    Ok((g1, c1)) => {
                        let (c2, jl) = c_hole(c_op(c1, Op::JumpIfFalse));
                        match ex(t, sc, g1, c2, *rhs) {
                            Ok((g2, c3)) => Ok((g2, and_tail(c3, jl))),
                            Err(m) => Err(m),
                        }
                    },
                    Err(m) => Err(m),
                },
                BinOp::Or => match ex(t, sc, g, c, *lhs) {
                    Ok((g1, c1)) => {
                        let (c6, jend) = or_head(c1);
                        match ex(t, sc, g1, c6, *rhs) {
                            Ok((g2, c7)) => Ok((g2, or_tail(c7, jend))),
                            Err(m) => Err(m),
                        }
                    },
                    Err(m) => Err(m),
                },
                _ => match ex(t, sc, g, c, *lhs) {
                    Ok((g1, c1)) => match ex(t, sc, g1, c1, *rhs) {
                        Ok((g2, c2)) => Ok((g2, c_u8(c2, binop_code(op)))),
                        Err(m) => Err(m),
                    },
                    Err(m) => Err(m),
                },
            },
            ExprView::Call { .. } => ex_call(t, sc, g, c, e),
            ExprView::MemberGet { target, name } => match ex(t, sc, g, c, *target) {
                Ok((g1, c1)) => Ok((g1, c_load(c1, Op::GetProp, ValueView::Str(name)))),
                Err(m) => Err(m),
            },
            ExprView::MemberCall { target, method, args } => match ex(t, sc, g, c, *target) {
                Ok((g1, c1)) => match ex_list(t, sc, g1, c1, args) {
                    Ok((g2, c2)) => Ok((g2, c_u8(c_load(c2, Op::CallMethod, ValueView::Str(method)), args.len() as u8))),
                    Err(m) => Err(m),
                },
                Err(m) => Err(m),
            },
            ExprView::NewObject { type_label, args } => match ex_list(t, sc, g, c, args) {
                Ok((g1, c1)) => Ok((g1, c_u8(c_load(c1, Op::NewObj, ValueView::Str(type_label)), args.len() as u8))),
                Err(m) => Err(m),
            },
            ExprView::NewClass { filename } => match ex(t, sc, g, c, *filename) {
                Ok((g1, c1)) => Ok((g1, c_op(c1, Op::NewClass))),
                Err(m) => Err(m),
            },
            ExprView::Eval(x) => match ex(t, sc, g, c, *x) {
                Ok((g1, c1)) => Ok((g1, c_op(c1, Op::EvalString))),
                Err(m) => Err(m),
            },
            ExprView::ImplicitThis => if t.with_current.len() > 0 {
                Ok(load_var(sc, g, c, t.with_current.last()))
            } else if sc is Some {
                if t.with_fn.len() > 0 {
                    Ok(load_var(sc, g, c, t.with_fn.last()))
                } else {
                    Err(with_msg(t.cur_line))
                }
            } else if t.with_tl.len() > 0 {
                Ok(load_var(None, g, c, t.with_tl.last()))
            } else {
                Err(with_msg(t.cur_line))
            },
        }
    }
}

/// A call or an array element: `callee(args)`.
pub open spec fn ex_call(t: TablesView, sc: Option<ScopeView>, g: Seq<Seq<char>>, c: ChunkView, e: ExprView) -> Result<
    (Seq<Seq<char>>, ChunkView),
    Seq<char>,
>
    decreases e, 0nat,
{
    match e {
        ExprView::Call { callee, args } => {
            let regular = match ex(t, sc, g, c, *callee) {
                Ok((g1, c1)) => match ex_list(t, sc, g1, c1, args) {
                    Ok((g2, c2)) => Ok((g2, c_u8(c_op(c2, Op::Call), args.len() as u8))),
                    Err(m) => Err(m),
                },
                Err(m) => Err(m),
            };
            match *callee {
                ExprView::Var(name) => {
                    let u = upper_seq(name);
                    if u == "DESCRIBE$"@ && args.len() == 1 {
                        match ex_list(t, sc, g, c, args) {
                            Ok((g1, c1)) => Ok((g1, c_op(c1, Op::DescribeObj))),
                            Err(m) => Err(m),
                        }
                    } else if u == "LEN"@ && args.len() == 1 && len_fold(t, sc, g, args[0]) is Some {
                        Ok((g, c_load(c, Op::Const, ValueView::Int(len_fold(t, sc, g, args[0])->Some_0 as i64))))
                    } else if builtin_id(u) is Some {
                        match ex_list(t, sc, g, c, args) {
                            Ok((g1, c1)) => Ok((g1, c_u8(c_u8(c_op(c1, Op::Builtin), builtin_id(u)->Some_0), args.len() as u8))),
                            Err(m) => Err(m),
                        }
                    } else if 1 <= args.len() <= 4 && routine(t.routines, u) is None {
                        let (g1, c1) = load_var(sc, g, c, name);
                        match ex_list(t, sc, g1, c1, args) {
                            Ok((g2, c2)) => Ok((g2, c_u8(c_op(c2, Op::ArrGet), args.len() as u8))),
                            Err(m) => Err(m),
                        }
                    } else {
                        regular
                    }
                },
                _ => regular,
            }
        },
        _ => Err(seq![]),
    }
}

/// The expressions' code, one after the other.
pub open spec fn ex_list(t: TablesView, sc: Option<ScopeView>, g: Seq<Seq<char>>, c: ChunkView, es: Seq<ExprView>) -> Result<
    (Seq<Seq<char>>, ChunkView),
    Seq<char>,
>
    decreases es, 0nat,
{
    if es.len() == 0 {
        Ok((g, c))
    } else {
        match ex_list(t, sc, g, c, es.drop_last()) {
            Ok((g1, c1)) => ex(t, sc, g1, c1, es.last()),
            Err(m) => Err(m),
        }
    }
}

/// Each entry's key as a constant, then its value's code.
pub open spec fn ex_dict(t: TablesView, sc: Option<ScopeView>, g: Seq<Seq<char>>, c: ChunkView, es: Seq<(Seq<char>, ExprView)>) -> Result<
    (Seq<Seq<char>>, ChunkView),
    Seq<char>,
>
    decreases es, 0nat,
{
    if es.len() == 0 {
        Ok((g, c))
    } else {
        match ex_dict(t, sc, g, c, es.drop_last()) {
            Ok((g1, c1)) => ex(t, sc, g1, c_load(c1, Op::Const, ValueView::Str(es.last().0)), es.last().1),
            Err(m) => Err(m),
        }
    }
}

// ---------------------------------------------------------------------
// Lookups, carried out

proof fn lemma_assoc_skip<X>(s: Seq<(Seq<char>, X)>, k: Seq<char>, i: int)
    requires
        0 <= i <= s.len(),
        forall|j: int| 0 <= j < i ==> (#[trigger] s[j]).0 != k,
    ensures
        assoc(s, k) == assoc(s.skip(i), k),
    decreases i,
{
    if i > 0 {
        assert(s.skip(1) =~= s.drop_first());
        lemma_assoc_skip(s.drop_first(), k, i - 1);
        assert(s.drop_first().skip(i - 1) =~= s.skip(i));
    } else {
        assert(s.skip(0) =~= s);
    }
}

proof fn lemma_assoc_at<X>(s: Seq<(Seq<char>, X)>, k: Seq<char>, i: int)
    requires
        0 <= i < s.len(),
        s[i].0 == k,
        forall|j: int| 0 <= j < i ==> (#[trigger] s[j]).0 != k,
    ensures
        assoc(s, k) == Some(s[i].1),
{
    lemma_assoc_skip(s, k, i);
    assert(s.skip(i)[0] == s[i]);
}

proof fn lemma_assoc_none<X>(s: Seq<(Seq<char>, X)>, k: Seq<char>)
    requires
        forall|j: int| 0 <= j < s.len() ==> (#[trigger] s[j]).0 != k,
    ensures
        assoc(s, k) is None,
{
    lemma_assoc_skip(s, k, s.len() as int);
    assert(s.skip(s.len() as int) =~= Seq::<(Seq<char>, X)>::empty());
}

pub(crate) fn find_usize(v: &Vec<(String, usize)>, k: &str) -> (r: Option<usize>)
    ensures
        r == assoc(pairs_view(v@), k@),
{
    let ghost s = pairs_view(v@);
    let mut i: usize = 0;
    while i < v.len()
        invariant
            i <= v.len(),
            s == pairs_view(v@),
            forall|j: int| 0 <= j < i ==> (#[trigger] s[j]).0 != k@,
        decreases v.len() - i,
    {
        if str_eq(v[i].0.as_str(), k) {
            proof {
                lemma_assoc_at(s, k@, i as int);
            }
            return Some(v[i].1);
        }
        i += 1;
    }
    proof {
        lemma_assoc_none(s, k@);
    }
    None
}

fn find_bits(v: &Vec<(String, u64)>, k: &str) -> (r: Option<u64>)
    ensures
        r == assoc(pairs_view(v@), k@),
{
    let ghost s = pairs_view(v@);
    let mut i: usize = 0;
    while i < v.len()
        invariant
            i <= v.len(),
            s == pairs_view(v@),
            forall|j: int| 0 <= j < i ==> (#[trigger] s[j]).0 != k@,
        decreases v.len() - i,
    {
        if str_eq(v[i].0.as_str(), k) {
            proof {
                lemma_assoc_at(s, k@, i as int);
            }
            return Some(v[i].1);
        }
        i += 1;
    }
    proof {
        lemma_assoc_none(s, k@);
    }
    None
}

fn find_name(v: &Vec<(String, String)>, k: &str) -> (r: Option<String>)
    ensures
        match r {
            Some(x) => assoc(names_pairs_view(v@), k@) == Some(x@),
            None => assoc(names_pairs_view(v@), k@) is None,
        },
{
    let ghost s = names_pairs_view(v@);
    let mut i: usize = 0;
    while i < v.len()
        invariant
            i <= v.len(),
            s == names_pairs_view(v@),
            forall|j: int| 0 <= j < i ==> (#[trigger] s[j]).0 != k@,
        decreases v.len() - i,
    {
        if str_eq(v[i].0.as_str(), k) {
            proof {
                lemma_assoc_at(s, k@, i as int);
            }
            return Some(v[i].1.clone());
        }
        i += 1;
    }
    proof {
        lemma_assoc_none(s, k@);
    }
    None
}

/// The index of the struct type named `k`.
fn find_type(t: &Tables, k: &str) -> (r: Option<usize>)
    ensures
        match r {
            Some(i) => i < t.struct_types@.len() && assoc(tables_view(*t).types, k@) == Some(
                fields_view(t.struct_types@[i as int].fields@),
            ),
            None => assoc(tables_view(*t).types, k@) is None,
        },
{
    let ghost s = tables_view(*t).types;
    let mut i: usize = 0;
    while i < t.struct_types.len()
        invariant
            i <= t.struct_types.len(),
            s == tables_view(*t).types,
            forall|j: int| 0 <= j < i ==> (#[trigger] s[j]).0 != k@,
        decreases t.struct_types.len() - i,
    {
        if str_eq(t.struct_types[i].name.as_str(), k) {
            proof {
                lemma_assoc_at(s, k@, i as int);
            }
            return Some(i);
        }
        i += 1;
    }
    proof {
        lemma_assoc_none(s, k@);
    }
    None
}

proof fn lemma_index_skip(s: Seq<Seq<char>>, k: Seq<char>, i: int)
    requires
        0 <= i <= s.len(),
        forall|j: int| 0 <= j < i ==> s[j] != k,
    ensures
        index_in(s, k) == (match index_in(s.skip(i), k) {
            Some(x) => Some(x + i),
            None => None,
        }),
    decreases i,
{
    if i > 0 {
        assert(s.skip(1) =~= s.drop_first());
        lemma_index_skip(s.drop_first(), k, i - 1);
        assert(s.drop_first().skip(i - 1) =~= s.skip(i));
    } else {
        assert(s.skip(0) =~= s);
    }
}

fn index_of(v: &Vec<String>, k: &str) -> (r: Option<usize>)
    ensures
        match r {
            Some(i) => index_in(names_view(v@), k@) == Some(i as int) && i < v@.len(),
            None => index_in(names_view(v@), k@) is None,
        },
{
    let ghost s = names_view(v@);
    let mut i: usize = 0;
    while i < v.len()
        invariant
            i <= v.len(),
            s == names_view(v@),
            forall|j: int| 0 <= j < i ==> s[j] != k@,
        decreases v.len() - i,
    {
        if str_eq(v[i].as_str(), k) {
            proof {
                lemma_index_skip(s, k@, i as int);
                assert(s.skip(i as int)[0] == s[i as int]);
            }
            return Some(i);
        }
        i += 1;
    }
    proof {
        lemma_index_skip(s, k@, s.len() as int);
        assert(s.skip(s.len() as int) =~= Seq::<Seq<char>>::empty());
    }
    None
}

/// The global slot of `name`, added at the end when it is new.
pub fn gslot_of(globals: &mut Vec<String>, name: &str) -> (r: u8)
    ensures
        (names_view(final(globals)@), r) == gslot(names_view(old(globals)@), name@),
{
    match index_of(globals, name) {
        Some(i) => i as u8,
        None => {
            let n = globals.len();
            globals.push(name.to_string());
            proof {
                assert(names_view(globals@) =~= names_view(old(globals)@).push(name@));
            }
            n as u8
        },
    }
}

fn find_routine(t: &Tables, u: &str) -> (r: Option<(usize, bool)>)
    ensures
        r == routine(tables_view(*t).routines, u@),
{
    let ghost s = tables_view(*t).routines;
    let mut i: usize = 0;
    assert(s.skip(0) =~= s);
    while i < t.routines.len()
        invariant
            i <= t.routines.len(),
            s == tables_view(*t).routines,
            forall|j: int| 0 <= j < i ==> (#[trigger] s[j]).0 != u@,
            routine(s, u@) == routine(s.skip(i as int), u@),
        decreases t.routines.len() - i,
    {
        assert(s.skip(i as int).drop_first() =~= s.skip(i + 1));
        assert(s.skip(i as int)[0] == s[i as int]);
        if str_eq(t.routines[i].name.as_str(), u) {
            return Some((t.routines[i].arity, t.routines[i].is_sub));
        }
        i += 1;
    }
    assert(s.skip(i as int) =~= Seq::<(Seq<char>, usize, bool)>::empty());
    None
}

pub open spec fn kind_view(k: StructFieldKind) -> FieldKindView {
    match k {
        StructFieldKind::Int32 => FieldKindView::Int32,
        StructFieldKind::Float64 => FieldKindView::Float64,
        StructFieldKind::VarString => FieldKindView::VarString,
        StructFieldKind::FixedString(n) => FieldKindView::FixedString(n),
        StructFieldKind::Struct(t) => FieldKindView::Struct(t@),
    }
}

fn copy_kind(k: &StructFieldKind) -> (r: StructFieldKind)
    ensures
        kind_view(r) == kind_view(*k),
{
    match k {
        StructFieldKind::Int32 => StructFieldKind::Int32,
        StructFieldKind::Float64 => StructFieldKind::Float64,
        StructFieldKind::VarString => StructFieldKind::VarString,
        StructFieldKind::FixedString(n) => StructFieldKind::FixedString(*n),
        StructFieldKind::Struct(t) => StructFieldKind::Struct(t.clone()),
    }
}

fn field_kind_exec(t: &Tables, ty: &str, field: &str) -> (r: Option<StructFieldKind>)
    ensures
        match r {
            Some(k) => field_kind_of(tables_view(*t), ty@, field@) == Some(kind_view(k)),
            None => field_kind_of(tables_view(*t), ty@, field@) is None,
        },
{
    let key = ascii_upper(ty);
    let i = match find_type(t, key.as_str()) {
        Some(i) => i,
        None => {
            return None;
        },
    };
    let fields = &t.struct_types[i].fields;
    let ghost fs = fields_view(fields@);
    let mut k: usize = 0;
    assert(fs.skip(0) =~= fs);
    assert(key@ == upper_seq(ty@));
    assert(assoc(tables_view(*t).types, upper_seq(ty@)) == Some(fs));
    assert(field_kind_of(tables_view(*t), ty@, field@) == field_kind_in(fs, field@));
    while k < fields.len()
        invariant
            k <= fields.len(),
            fs == fields_view(fields@),
            field_kind_of(tables_view(*t), ty@, field@) == field_kind_in(fs, field@),
            field_kind_in(fs, field@) == field_kind_in(fs.skip(k as int), field@),
        decreases fields.len() - k,
    {
        assert(fs.skip(k as int).drop_first() =~= fs.skip(k + 1));
        assert(fs.skip(k as int)[0] == field_view(fields@[k as int]));
        assert(field_view(fields@[k as int]).kind == kind_view(fields@[k as int].kind));
        assert(fs.skip(k as int).len() > 0);
        if eq_ignore_case_str(fields[k].name.as_str(), field) {
            assert(field_kind_in(fs.skip(k as int), field@) == Some(kind_view(fields@[k as int].kind)));
            return Some(copy_kind(&fields[k].kind));
        }
        k += 1;
    }
    assert(fs.skip(k as int) =~= Seq::<FieldView>::empty());
    None
}

pub open spec fn opt_name_view(o: Option<String>) -> Option<Seq<char>> {
    match o {
        Some(x) => Some(x@),
        None => None,
    }
}

fn struct_type_exec(t: &Tables, sc: Option<&FnScope>, e: &Expr) -> (r: Option<String>)
    ensures
        opt_name_view(r) == struct_type_of(tables_view(*t), opt_scope_view(sc), expr_view(*e)),
    decreases e,
{
    let ghost tv = tables_view(*t);
    let ghost sv = opt_scope_view(sc);
    match e {
        Expr::Var(name) => {
            let r = match sc {
                Some(s) => match find_name(&s.var_struct, name.as_str()) {
                    Some(x) => Some(x),
                    None => find_name(&t.var_struct_globs, name.as_str()),
                },
                None => find_name(&t.var_struct_globs, name.as_str()),
            };
            assert(opt_name_view(r) == struct_type_of(tv, sv, expr_view(*e)));
            r
        },
        Expr::Call { callee, .. } => {
            let r = match &**callee {
                Expr::Var(arr) => {
                    assert(expr_view(**callee) == ExprView::Var(arr@));
                    match sc {
                    Some(s) => match find_name(&s.var_struct_array, arr.as_str()) {
                        Some(x) => Some(x),
                        None => find_name(&t.var_struct_array_globs, arr.as_str()),
                    },
                    None => find_name(&t.var_struct_array_globs, arr.as_str()),
                }},
                _ => {
                    assert(!(expr_view(**callee) is Var));
                    None
                },
            };
            assert(opt_name_view(r) == struct_type_of(tv, sv, expr_view(*e)));
            r
        },
        Expr::MemberGet { target, name } => {
            let p = struct_type_exec(t, sc, target);
            let r = match p {
                Some(parent) => {
                    let k = field_kind_exec(t, parent.as_str(), name.as_str());
                    match k {
                        Some(StructFieldKind::Struct(nested)) => Some(ascii_upper(nested.as_str())),
                        _ => None,
                    }
                },
                None => None,
            };
            assert(opt_name_view(r) == struct_type_of(tv, sv, expr_view(*e)));
            r
        },
        _ => None,
    }
}

fn struct_size_exec(t: &Tables, ty: &str, seen: &mut Vec<String>, fuel: usize) -> (r: Option<usize>)
    ensures
        (r, names_view(final(seen)@)) == struct_size(tables_view(*t), ty@, names_view(old(seen)@), fuel as nat),
    decreases fuel, 0int,
{
    let key = ascii_upper(ty);
    let i = match find_type(t, key.as_str()) {
        Some(i) => i,
        None => {
            return None;
        },
    };
    let already = index_of(seen, key.as_str());
    proof {
        if names_view(seen@).contains(key@) {
            let j = choose|j: int| 0 <= j < names_view(seen@).len() && names_view(seen@)[j] == key@;
            lemma_index_skip(names_view(seen@), key@, 0);
            assert(names_view(seen@).skip(0) =~= names_view(seen@));
            if index_in(names_view(seen@), key@) is None {
                lemma_index_none(names_view(seen@), key@, j);
            }
        }
        if index_in(names_view(seen@), key@) is Some {
            lemma_index_found(names_view(seen@), key@);
        }
    }
    if already.is_some() || fuel == 0 {
        return None;
    }
    seen.push(key);
    proof {
        assert(names_view(seen@) =~= names_view(old(seen)@).push(upper_seq(ty@)));
    }
    fields_size_exec(t, i, seen, fuel - 1)
}

proof fn lemma_index_none(s: Seq<Seq<char>>, k: Seq<char>, j: int)
    requires
        0 <= j < s.len(),
        s[j] == k,
    ensures
        index_in(s, k) is Some,
    decreases j,
{
    if j > 0 && s[0] != k {
        lemma_index_none(s.drop_first(), k, j - 1);
    }
}

proof fn lemma_index_found(s: Seq<Seq<char>>, k: Seq<char>)
    requires
        index_in(s, k) is Some,
    ensures
        s.contains(k),
    decreases s.len(),
{
    if s[0] != k {
        lemma_index_found(s.drop_first(), k);
        let j = choose|j: int| 0 <= j < s.drop_first().len() && s.drop_first()[j] == k;
        assert(s[j + 1] == k);
    }
}

fn fields_size_exec(t: &Tables, ti: usize, seen: &mut Vec<String>, fuel: usize) -> (r: Option<usize>)
    requires
        ti < t.struct_types@.len(),
    ensures
        (r, names_view(final(seen)@)) == fields_size(
            tables_view(*t),
            fields_view(t.struct_types@[ti as int].fields@),
            names_view(old(seen)@),
            fuel as nat,
            0,
        ),
    decreases fuel, 1int,
{
    let fields = &t.struct_types[ti].fields;
    let ghost fs = fields_view(fields@);
    let mut k: usize = 0;
    let mut total: usize = 0;
    assert(fs.skip(0) =~= fs);
    while k < fields.len()
        invariant
            k <= fields.len(),
            fs == fields_view(fields@),
            fields@ == t.struct_types@[ti as int].fields@,
            fields_size(tables_view(*t), fs, names_view(old(seen)@), fuel as nat, 0) == fields_size(
                tables_view(*t),
                fs.skip(k as int),
                names_view(seen@),
                fuel as nat,
                total,
            ),
        decreases fields.len() - k,
    {
        assert(fs.skip(k as int).drop_first() =~= fs.skip(k + 1));
        assert(fs.skip(k as int)[0] == field_view(fields@[k as int]));
        let n: usize = match &fields[k].kind {
            StructFieldKind::Int32 => 4,
            StructFieldKind::Float64 => 8,
            StructFieldKind::FixedString(n) => *n,
            StructFieldKind::VarString => {
                return None;
            },
            StructFieldKind::Struct(nm) => match struct_size_exec(t, nm.as_str(), seen, fuel) {
                Some(n) => n,
                None => {
                    return None;
                },
            },
        };
        if n > usize::MAX - total {
            return None;
        }
        total = total + n;
        k += 1;
    }
    assert(fs.skip(k as int) =~= Seq::<FieldView>::empty());
    Some(total)
}

fn struct_fixed_size_exec(t: &Tables, ty: &str) -> (r: Option<usize>)
    ensures
        r == struct_fixed_size(tables_view(*t), ty@),
{
    let mut seen: Vec<String> = Vec::new();
    assert(names_view(seen@) =~= Seq::<Seq<char>>::empty());
    struct_size_exec(t, ty, &mut seen, t.struct_types.len())
}

fn has_sub_exec(t: &Tables, e: &Expr) -> (r: bool)
    ensures
        r == has_sub_call(tables_view(*t).routines, expr_view(*e)),
    decreases e,
{
    match e {
        Expr::Call { callee, args } => {
            let direct = match &**callee {
                Expr::Var(name) => {
                    assert(expr_view(**callee) == ExprView::Var(name@));
                    let u = ascii_upper(name.as_str());
                    match find_routine(t, u.as_str()) {
                        Some((_, is_sub)) => is_sub,
                        None => false,
                    }
                },
                _ => {
                    assert(!(expr_view(**callee) is Var));
                    false
                },
            };
            let any = any_sub_exec(t, args);
            direct || any
        },
        Expr::UnaryNeg(x) => has_sub_exec(t, x),
        Expr::UnaryNot(x) => has_sub_exec(t, x),
        Expr::Binary { lhs, rhs, .. } => has_sub_exec(t, lhs) || has_sub_exec(t, rhs),
        Expr::MemberGet { target, .. } => has_sub_exec(t, target),
        Expr::MemberCall { target, args, .. } => has_sub_exec(t, target) || any_sub_exec(t, args),
        Expr::NewObject { args, .. } => any_sub_exec(t, args),
        Expr::NewClass { filename } => has_sub_exec(t, filename),
        Expr::Eval(x) => has_sub_exec(t, x),
        _ => false,
    }
}

fn any_sub_exec(t: &Tables, es: &Vec<Expr>) -> (r: bool)
    ensures
        r == any_sub_call(tables_view(*t).routines, exprs_view(es@)),
    decreases es,
{
    let mut i: usize = 0;
    let mut found = false;
    assert(es@.take(0) =~= Seq::<Expr>::empty());
    while i < es.len()
        invariant
            i <= es.len(),
            found == any_sub_call(tables_view(*t).routines, exprs_view(es@.take(i as int))),
        decreases es.len() - i,
    {
        assert(decreases_to!(es => es@[i as int]));
        let h = has_sub_exec(t, &es[i]);
        proof {
            assert(es@.take(i as int).push(es@[i as int]) =~= es@.take(i + 1));
            crate::ast::lemma_exprs_view_push(es@.take(i as int), es@[i as int]);
            let v = exprs_view(es@.take(i + 1));
            assert(v.drop_last() =~= exprs_view(es@.take(i as int)));
            assert(v.last() == expr_view(es@[i as int]));
        }
        found = found || h;
        i += 1;
    }
    assert(es@.take(es.len() as int) =~= es@);
    found
}

// ---------------------------------------------------------------------
// Chunk operations, with their values

pub(crate) fn e_op(c: &mut Chunk, o: Op)
    ensures
        chunk_view(*final(c)) == c_op(chunk_view(*old(c)), o),
{
    c.push_op(o);
}

fn e_u8(c: &mut Chunk, b: u8)
    ensures
        chunk_view(*final(c)) == c_u8(chunk_view(*old(c)), b),
{
    c.push_u8(b);
}

fn e_u16(c: &mut Chunk, n: u16)
    ensures
        chunk_view(*final(c)) == c_u16(chunk_view(*old(c)), n),
{
    c.push_u16(n);
}

fn e_const(c: &mut Chunk, v: ConstValue) -> (r: u16)
    ensures
        (chunk_view(*final(c)), r) == c_const(chunk_view(*old(c)), value_view(v)),
{
    let ghost vv = value_view(v);
    proof {
        crate::bytecode::lemma_values_view_len(c.consts@);
    }
    let r = c.add_const(v);
    proof {
        assert(c.consts@.drop_last() =~= old(c).consts@);
    }
    r
}

pub(crate) fn e_load(c: &mut Chunk, o: Op, v: ConstValue)
    ensures
        chunk_view(*final(c)) == c_load(chunk_view(*old(c)), o, value_view(v)),
{
    let i = e_const(c, v);
    e_op(c, o);
    e_u16(c, i);
}

fn e_hole(c: &mut Chunk) -> (r: usize)
    ensures
        (chunk_view(*final(c)), r as int) == c_hole(chunk_view(*old(c))),
        r + 2 == final(c).code@.len(),
{
    c.emit_u16_placeholder()
}

fn e_patch(c: &mut Chunk, at: usize, v: u16)
    requires
        at + 1 < old(c).code@.len(),
    ensures
        chunk_view(*final(c)) == c_patch(chunk_view(*old(c)), at as int, v),
        final(c).code@.len() == old(c).code@.len(),
{
    c.patch_u16_at(at, v);
}

fn load_var_exec(sc: Option<&FnScope>, globals: &mut Vec<String>, c: &mut Chunk, name: &str)
    requires
        sc matches Some(s) ==> s.env.wf(),
    ensures
        (names_view(final(globals)@), chunk_view(*final(c))) == load_var(
            opt_scope_view(sc),
            names_view(old(globals)@),
            chunk_view(*old(c)),
            name@,
        ),
{
    let local = match sc {
        Some(s) => s.env.lookup(name),
        None => None,
    };
    match local {
        Some(slot) => {
            e_op(c, Op::LoadLocal);
            e_u8(c, slot);
        },
        None => {
            let g = gslot_of(globals, name);
            e_op(c, Op::LoadGlobal);
            e_u8(c, g);
        },
    }
}

fn len_fold_exec(t: &Tables, sc: Option<&FnScope>, globals: &Vec<String>, a: &Expr) -> (r: Option<usize>)
    requires
        sc matches Some(s) ==> s.env.wf(),
    ensures
        r == len_fold(tables_view(*t), opt_scope_view(sc), names_view(globals@), expr_view(*a)),
{
    match a {
        Expr::Var(vn) => {
            let local_fixed = match sc {
                Some(s) => find_usize(&s.fixed, vn.as_str()),
                None => None,
            };
            if local_fixed.is_some() {
                return local_fixed;
            }
            let gf = find_usize(&t.fixed_globs, vn.as_str());
            if gf.is_some() {
                return gf;
            }
            let ty = match sc {
                Some(s) => match find_name(&s.var_struct, vn.as_str()) {
                    Some(x) => Some(x),
                    None => find_name(&t.var_struct_globs, vn.as_str()),
                },
                None => find_name(&t.var_struct_globs, vn.as_str()),
            };
            match &ty {
                Some(tyu) => {
                    let sz = struct_fixed_size_exec(t, tyu.as_str());
                    if sz.is_some() {
                        return sz;
                    }
                },
                None => {},
            }
            let local_bound = match sc {
                Some(s) => s.env.lookup(vn.as_str()).is_some(),
                None => false,
            };
            let bound = local_bound || index_of(globals, vn.as_str()).is_some();
            let key = ascii_upper(vn.as_str());
            if !bound && find_type(t, key.as_str()).is_some() {
                match struct_fixed_size_exec(t, key.as_str()) {
                    Some(n) => Some(n),
                    None => Some(0),
                }
            } else {
                None
            }
        },
        Expr::MemberGet { target, name } => match struct_type_exec(t, sc, target) {
            Some(ty) => match field_kind_exec(t, ty.as_str(), name.as_str()) {
                Some(StructFieldKind::FixedString(n)) => Some(n),
                _ => None,
            },
            None => None,
        },
        _ => None,
    }
}

// ---------------------------------------------------------------------
// Expressions

proof fn lemma_ex_list_prefix_err(t: TablesView, sc: Option<ScopeView>, g: Seq<Seq<char>>, c: ChunkView, s: Seq<ExprView>, k: int)
    requires
        0 <= k <= s.len(),
        ex_list(t, sc, g, c, s.take(k)) is Err,
    ensures
        ex_list(t, sc, g, c, s) == ex_list(t, sc, g, c, s.take(k)),
    decreases s.len() - k,
{
    if s.len() == k {
        assert(s.take(k) =~= s);
    } else {
        assert(s.drop_last().take(k) =~= s.take(k));
        lemma_ex_list_prefix_err(t, sc, g, c, s.drop_last(), k);
    }
}

proof fn lemma_ex_dict_prefix_err(t: TablesView, sc: Option<ScopeView>, g: Seq<Seq<char>>, c: ChunkView, s: Seq<(Seq<char>, ExprView)>, k: int)
    requires
        0 <= k <= s.len(),
        ex_dict(t, sc, g, c, s.take(k)) is Err,
    ensures
        ex_dict(t, sc, g, c, s) == ex_dict(t, sc, g, c, s.take(k)),
    decreases s.len() - k,
{
    if s.len() == k {
        assert(s.take(k) =~= s);
    } else {
        assert(s.drop_last().take(k) =~= s.take(k));
        lemma_ex_dict_prefix_err(t, sc, g, c, s.drop_last(), k);
    }
}

/// Emits `es` one after the other.
pub fn emit_list(t: &Tables, sc: Option<&FnScope>, globals: &mut Vec<String>, c: &mut Chunk, es: &Vec<Expr>) -> (r: Result<(), BasilError>)
    requires
        sc matches Some(s) ==> s.env.wf(),
    ensures
        match ex_list(tables_view(*t), opt_scope_view(sc), names_view(old(globals)@), chunk_view(*old(c)), exprs_view(es@)) {
            Ok((g, cv)) => r is Ok && names_view(final(globals)@) == g && chunk_view(*final(c)) == cv,
            Err(m) => r matches Err(x) && x.0@ == m,
        },
        r is Ok ==> final(c).code@.len() >= old(c).code@.len(),
    decreases es, 0int,
{
    let ghost tv = tables_view(*t);
    let ghost sv = opt_scope_view(sc);
    let ghost g0 = names_view(globals@);
    let ghost c0 = chunk_view(*c);
    let mut i: usize = 0;
    assert(es@.take(0) =~= Seq::<Expr>::empty());
    while i < es.len()
        invariant
            i <= es.len(),
            sc matches Some(s) ==> s.env.wf(),
            tv == tables_view(*t),
            sv == opt_scope_view(sc),
            g0 == names_view(old(globals)@),
            c0 == chunk_view(*old(c)),
            ex_list(tv, sv, g0, c0, exprs_view(es@.take(i as int))) == Ok::<(Seq<Seq<char>>, ChunkView), Seq<char>>(
                (names_view(globals@), chunk_view(*c)),
            ),
            c.code@.len() >= old(c).code@.len(),
        decreases es.len() - i,
    {
        proof {
            assert(es@.take(i as int).push(es@[i as int]) =~= es@.take(i + 1));
            crate::ast::lemma_exprs_view_push(es@.take(i as int), es@[i as int]);
            let v = exprs_view(es@.take(i + 1));
            assert(v.drop_last() =~= exprs_view(es@.take(i as int)));
            assert(v.last() == expr_view(es@[i as int]));
        }
        assert(decreases_to!(es => es@[i as int]));
        match emit_expr(t, sc, globals, c, &es[i]) {
            Ok(()) => {},
            Err(e) => {
                proof {
                    assert(ex_list(tv, sv, g0, c0, exprs_view(es@.take(i + 1))) == Err::<(Seq<Seq<char>>, ChunkView), Seq<char>>(e.0@));
                    crate::ast::lemma_exprs_view_index(es@);
                    assert(exprs_view(es@).take(i + 1) =~= exprs_view(es@.take(i + 1))) by {
                        crate::ast::lemma_exprs_view_index(es@.take(i + 1));
                    }
                    lemma_ex_list_prefix_err(tv, sv, g0, c0, exprs_view(es@), i + 1);
                    assert(ex_list(tv, sv, g0, c0, exprs_view(es@)) == Err::<(Seq<Seq<char>>, ChunkView), Seq<char>>(e.0@));
                }
                return Err(e);
            },
        }
        i += 1;
    }
    assert(es@.take(es.len() as int) =~= es@);
    Ok(())
}

/// Emits each entry's key as a constant, then its value.
pub fn emit_dict(t: &Tables, sc: Option<&FnScope>, globals: &mut Vec<String>, c: &mut Chunk, es: &Vec<(String, Expr)>) -> (r: Result<(), BasilError>)
    requires
        sc matches Some(s) ==> s.env.wf(),
    ensures
        match ex_dict(tables_view(*t), opt_scope_view(sc), names_view(old(globals)@), chunk_view(*old(c)), entries_view(es@)) {
            Ok((g, cv)) => r is Ok && names_view(final(globals)@) == g && chunk_view(*final(c)) == cv,
            Err(m) => r matches Err(x) && x.0@ == m,
        },
        r is Ok ==> final(c).code@.len() >= old(c).code@.len(),
    decreases es, 0int,
{
    let ghost tv = tables_view(*t);
    let ghost sv = opt_scope_view(sc);
    let ghost g0 = names_view(globals@);
    let ghost c0 = chunk_view(*c);
    let mut i: usize = 0;
    assert(es@.take(0) =~= Seq::<(String, Expr)>::empty());
    while i < es.len()
        invariant
            i <= es.len(),
            sc matches Some(s) ==> s.env.wf(),
            tv == tables_view(*t),
            sv == opt_scope_view(sc),
            g0 == names_view(old(globals)@),
            c0 == chunk_view(*old(c)),
            ex_dict(tv, sv, g0, c0, entries_view(es@.take(i as int))) == Ok::<(Seq<Seq<char>>, ChunkView), Seq<char>>(
                (names_view(globals@), chunk_view(*c)),
            ),
            c.code@.len() >= old(c).code@.len(),
        decreases es.len() - i,
    {
        proof {
            assert(es@.take(i + 1).drop_last() =~= es@.take(i as int));
            assert(es@.take(i + 1).last() == es@[i as int]);
            let v = entries_view(es@.take(i + 1));
            assert(v == entries_view(es@.take(i + 1).drop_last()).push((es@.take(i + 1).last().0@, expr_view(es@.take(i + 1).last().1))));
            assert(v.drop_last() =~= entries_view(es@.take(i as int)));
            assert(v.last() == (es@[i as int].0@, expr_view(es@[i as int].1)));
        }
        assert(decreases_to!(es => es@[i as int].1));
        e_load(c, Op::Const, ConstValue::Str(es[i].0.clone()));
        match emit_expr(t, sc, globals, c, &es[i].1) {
            Ok(()) => {},
            Err(e) => {
                proof {
                    lemma_entries_len(es@);
                    assert(ex_dict(tv, sv, g0, c0, entries_view(es@.take(i + 1))) is Err);
                    assert(entries_view(es@).take(i + 1) =~= entries_view(es@.take(i + 1))) by {
                        lemma_entries_take(es@, i + 1);
                    }
                    lemma_ex_dict_prefix_err(tv, sv, g0, c0, entries_view(es@), i + 1);
                }
                return Err(e);
            },
        }
        i += 1;
    }
    assert(es@.take(es.len() as int) =~= es@);
    Ok(())
}

proof fn lemma_entries_take(s: Seq<(String, Expr)>, k: int)
    requires
        0 <= k <= s.len(),
    ensures
        entries_view(s).take(k) =~= entries_view(s.take(k)),
    decreases s.len(),
{
    lemma_entries_len(s);
    lemma_entries_len(s.take(k));
    if s.len() == k {
        assert(s.take(k) =~= s);
    } else {
        assert(s.drop_last().take(k) =~= s.take(k));
        lemma_entries_take(s.drop_last(), k);
        lemma_entries_len(s.drop_last());
        assert(entries_view(s).drop_last() =~= entries_view(s.drop_last()));
        assert(entries_view(s).take(k) =~= entries_view(s).drop_last().take(k));
    }
}

proof fn lemma_entries_len(s: Seq<(String, Expr)>)
    ensures
        entries_view(s).len() == s.len(),
    decreases s.len(),
{
    if s.len() > 0 {
        lemma_entries_len(s.drop_last());
    }
}

/// Emits the code of expression `e`; a SUB call in it, or a leading `.` outside a
/// WITH block, is an error.
#[verifier::spinoff_prover]
#[verifier::rlimit(80)]
pub fn emit_expr(t: &Tables, sc: Option<&FnScope>, globals: &mut Vec<String>, c: &mut Chunk, e: &Expr) -> (r: Result<(), BasilError>)
    requires
        sc matches Some(s) ==> s.env.wf(),
    ensures
        match ex(tables_view(*t), opt_scope_view(sc), names_view(old(globals)@), chunk_view(*old(c)), expr_view(*e)) {
            Ok((g, cv)) => r is Ok && names_view(final(globals)@) == g && chunk_view(*final(c)) == cv,
            Err(m) => r matches Err(x) && x.0@ == m,
        },
        r is Ok ==> final(c).code@.len() >= old(c).code@.len(),
    decreases e, 1int,
{
    if has_sub_exec(t, e) {
        return Err(BasilError(string_of("SUB call has no value; cannot be used in an expression. Call it as a statement: NAME(...);")));
    }
    match e {
        Expr::Number(n) => {
            let bits = match find_bits(&t.numerals, n.as_str()) {
                Some(b) => b,
                None => 0,
            };
            e_load(c, Op::Const, ConstValue::Num(bits));
            Ok(())
        },
        Expr::Str(x) => {
            e_load(c, Op::Const, ConstValue::Str(x.clone()));
            Ok(())
        },
        Expr::Bool(b) => {
            e_load(c, Op::Const, ConstValue::Bool(*b));
            Ok(())
        },
        Expr::List(items) => {
            match emit_list(t, sc, globals, c, items) {
                Ok(()) => {},
                Err(m) => {
                    return Err(m);
                },
            }
            proof {
                crate::ast::lemma_exprs_view_index(items@);
            }
            e_op(c, Op::Builtin);
            e_u8(c, 251);
            e_u8(c, items.len() as u8);
            Ok(())
        },
        Expr::Dict(entries) => {
            match emit_dict(t, sc, globals, c, entries) {
                Ok(()) => {},
                Err(m) => {
                    return Err(m);
                },
            }
            proof {
                lemma_entries_len(entries@);
            }
            e_op(c, Op::Builtin);
            e_u8(c, 252);
            e_u8(c, ((entries.len() % 128) * 2) as u8);
            Ok(())
        },
        Expr::IndexSquare { target, index } => {
            match emit_expr(t, sc, globals, c, target) {
                Ok(()) => {},
                Err(m) => {
                    return Err(m);
                },
            }
            match emit_expr(t, sc, globals, c, index) {
                Ok(()) => {},
                Err(m) => {
                    return Err(m);
                },
            }
            e_op(c, Op::Builtin);
            e_u8(c, 253);
            e_u8(c, 2);
            Ok(())
        },
        Expr::Var(name) => {
            let up = ascii_upper(name.as_str());
            if str_eq(up.as_str(), "PRO") {
                e_load(c, Op::Const, ConstValue::Int(1));
            } else if str_eq(up.as_str(), "NOT_PRO") {
                e_load(c, Op::Const, ConstValue::Int(0));
            } else {
                load_var_exec(sc, globals, c, name.as_str());
            }
            Ok(())
        },
        Expr::UnaryNeg(x) => {
            match emit_expr(t, sc, globals, c, x) {
                Ok(()) => {},
                Err(m) => {
                    return Err(m);
                },
            }
            e_op(c, Op::Neg);
            Ok(())
        },
        Expr::UnaryNot(x) => {
            match emit_expr(t, sc, globals, c, x) {
                Ok(()) => {},
                Err(m) => {
                    return Err(m);
                },
            }
            emit_not_tail(c);
            Ok(())
        },
        Expr::Binary { op, lhs, rhs } => {
            match op {
                BinOp::And => {
                    match emit_expr(t, sc, globals, c, lhs) {
                        Ok(()) => {},
                        Err(m) => {
                            return Err(m);
                        },
                    }
                    e_op(c, Op::JumpIfFalse);
                    let jl = e_hole(c);
                    match emit_expr(t, sc, globals, c, rhs) {
                        Ok(()) => {},
                        Err(m) => {
                            return Err(m);
                        },
                    }
                    emit_and_tail(c, jl);
                    Ok(())
                },
                BinOp::Or => {
                    match emit_expr(t, sc, globals, c, lhs) {
                        Ok(()) => {},
                        Err(m) => {
                            return Err(m);
                        },
                    }
                    let jend = emit_or_head(c);
                    match emit_expr(t, sc, globals, c, rhs) {
                        Ok(()) => {},
                        Err(m) => {
                            return Err(m);
                        },
                    }
                    emit_or_tail(c, jend);
                    Ok(())
                },
                _ => {
                    match emit_expr(t, sc, globals, c, lhs) {
                        Ok(()) => {},
                        Err(m) => {
                            return Err(m);
                        },
                    }
                    match emit_expr(t, sc, globals, c, rhs) {
                        Ok(()) => {},
                        Err(m) => {
                            return Err(m);
                        },
                    }
                    e_u8(c, binop_exec(*op));
                    Ok(())
                },
            }
        },
        Expr::Call { .. } => emit_call(t, sc, globals, c, e),
        Expr::MemberGet { target, name } => {
            match emit_expr(t, sc, globals, c, target) {
                Ok(()) => {},
                Err(m) => {
                    return Err(m);
                },
            }
            e_load(c, Op::GetProp, ConstValue::Str(name.clone()));
            Ok(())
        },
        Expr::MemberCall { target, method, args } => {
            match emit_expr(t, sc, globals, c, target) {
                Ok(()) => {},
                Err(m) => {
                    return Err(m);
                },
            }
            match emit_list(t, sc, globals, c, args) {
                Ok(()) => {},
                Err(m) => {
                    return Err(m);
                },
            }
            proof {
                crate::ast::lemma_exprs_view_index(args@);
            }
            e_load(c, Op::CallMethod, ConstValue::Str(method.clone()));
            e_u8(c, args.len() as u8);
            Ok(())
        },
        Expr::NewObject { type_label, args } => {
            match emit_list(t, sc, globals, c, args) {
                Ok(()) => {},
                Err(m) => {
                    return Err(m);
                },
            }
            proof {
                crate::ast::lemma_exprs_view_index(args@);
            }
            e_load(c, Op::NewObj, ConstValue::Str(type_label.clone()));
            e_u8(c, args.len() as u8);
            Ok(())
        },
        Expr::NewClass { filename } => {
            match emit_expr(t, sc, globals, c, filename) {
                Ok(()) => {},
                Err(m) => {
                    return Err(m);
                },
            }
            e_op(c, Op::NewClass);
            Ok(())
        },
        Expr::Eval(x) => {
            match emit_expr(t, sc, globals, c, x) {
                Ok(()) => {},
                Err(m) => {
                    return Err(m);
                },
            }
            e_op(c, Op::EvalString);
            Ok(())
        },
        Expr::ImplicitThis => {
            if t.with_current.len() > 0 {
                let nm = t.with_current[t.with_current.len() - 1].as_str();
                load_var_exec(sc, globals, c, nm);
                Ok(())
            } else if sc.is_some() {
                if t.with_fn.len() > 0 {
                    let nm = t.with_fn[t.with_fn.len() - 1].as_str();
                    load_var_exec(sc, globals, c, nm);
                    Ok(())
                } else {
                    Err(with_error(t.cur_line))
                }
            } else if t.with_tl.len() > 0 {
                let nm = t.with_tl[t.with_tl.len() - 1].as_str();
                load_var_exec(None, globals, c, nm);
                Ok(())
            } else {
                Err(with_error(t.cur_line))
            }
        },
    }
}

fn with_error(line: u32) -> (e: BasilError)
    ensures
        e.0@ == with_msg(line),
{
    let mut m = string_of("Leading '.' member requires a WITH block (at line ");
    push_decimal(&mut m, line as u64);
    push_str(&mut m, ")");
    BasilError(m)
}

fn emit_call(t: &Tables, sc: Option<&FnScope>, globals: &mut Vec<String>, c: &mut Chunk, e: &Expr) -> (r: Result<(), BasilError>)
    requires
        sc matches Some(s) ==> s.env.wf(),
    ensures
        match ex_call(tables_view(*t), opt_scope_view(sc), names_view(old(globals)@), chunk_view(*old(c)), expr_view(*e)) {
            Ok((g, cv)) => r is Ok && names_view(final(globals)@) == g && chunk_view(*final(c)) == cv,
            Err(m) => r matches Err(x) && x.0@ == m,
        },
        r is Ok ==> final(c).code@.len() >= old(c).code@.len(),
    decreases e, 0int,
{
    let (callee, args) = match e {
        Expr::Call { callee, args } => (callee, args),
        _ => {
            return Err(BasilError(String::new()));
        },
    };
    proof {
        crate::ast::lemma_exprs_view_index(args@);
    }
    match &**callee {
        Expr::Var(name) => {
            assert(expr_view(**callee) == ExprView::Var(name@));
            let up = ascii_upper(name.as_str());
            let u = up.as_str();
            if str_eq(u, "DESCRIBE$") && args.len() == 1 {
                match emit_list(t, sc, globals, c, args) {
                    Ok(()) => {},
                    Err(m) => {
                        return Err(m);
                    },
                }
                e_op(c, Op::DescribeObj);
                return Ok(());
            }
            if str_eq(u, "LEN") && args.len() == 1 {
                match len_fold_exec(t, sc, globals, &args[0]) {
                    Some(n) => {
                        e_load(c, Op::Const, ConstValue::Int(n as i64));
                        return Ok(());
                    },
                    None => {},
                }
            }
            match builtin_id_exec(u) {
                Some(id) => {
                    match emit_list(t, sc, globals, c, args) {
                        Ok(()) => {},
                        Err(m) => {
                            return Err(m);
                        },
                    }
                    e_op(c, Op::Builtin);
                    e_u8(c, id);
                    e_u8(c, args.len() as u8);
                    return Ok(());
                },
                None => {},
            }
            if 1 <= args.len() && args.len() <= 4 && find_routine(t, u).is_none() {
                load_var_exec(sc, globals, c, name.as_str());
                match emit_list(t, sc, globals, c, args) {
                    Ok(()) => {},
                    Err(m) => {
                        return Err(m);
                    },
                }
                e_op(c, Op::ArrGet);
                e_u8(c, args.len() as u8);
                return Ok(());
            }
        },
        _ => {
            assert(!(expr_view(**callee) is Var));
        },
    }
    match emit_expr(t, sc, globals, c, callee) {
        Ok(()) => {},
        Err(m) => {
            return Err(m);
        },
    }
    match emit_list(t, sc, globals, c, args) {
        Ok(()) => {},
        Err(m) => {
            return Err(m);
        },
    }
    e_op(c, Op::Call);
    e_u8(c, args.len() as u8);
    Ok(())
}

fn builtin_id_exec(u: &str) -> (r: Option<u8>)
    ensures
        r == builtin_id(u@),
{
    if str_eq(u, "LEN") { Some(1) }
    else if str_eq(u, "MID$") { Some(2) }
    else if str_eq(u, "LEFT$") { Some(3) }
    else if str_eq(u, "RIGHT$") { Some(4) }
    else if str_eq(u, "INSTR") { Some(5) }
    else if str_eq(u, "INPUT$") || str_eq(u, "INPUT") { Some(6) }
    else if str_eq(u, "INKEY$") { Some(7) }
    else if str_eq(u, "INKEY%") { Some(8) }
    else if str_eq(u, "TYPE$") { Some(9) }
    else if str_eq(u, "HTML$") || str_eq(u, "HTML") { Some(10) }
    else if str_eq(u, "GET$") { Some(11) }
    else if str_eq(u, "POST$") { Some(12) }
    else if str_eq(u, "REQUEST$") { Some(13) }
    else if str_eq(u, "UCASE$") { Some(14) }
    else if str_eq(u, "LCASE$") { Some(15) }
    else if str_eq(u, "TRIM$") { Some(16) }
    else if str_eq(u, "CHR$") { Some(17) }
    else if str_eq(u, "ASC%") { Some(18) }
    else if str_eq(u, "INPUTC$") { Some(19) }
    else if str_eq(u, "ESCAPE$") { Some(20) }
    else if str_eq(u, "UNESCAPE$") { Some(21) }
    else if str_eq(u, "URLENCODE$") { Some(22) }
    else if str_eq(u, "URLDECODE$") { Some(23) }
    else if str_eq(u, "STRING$") { Some(26) }
    else if str_eq(u, "SLEEP") { Some(24) }
    else if str_eq(u, "FOPEN") { Some(40) }
    else if str_eq(u, "FCLOSE") { Some(41) }
    else if str_eq(u, "FFLUSH") { Some(42) }
    else if str_eq(u, "FEOF") { Some(43) }
    else if str_eq(u, "FTELL&") { Some(44) }
    else if str_eq(u, "FSEEK") { Some(45) }
    else if str_eq(u, "FREAD$") { Some(46) }
    else if str_eq(u, "FREADLINE$") { Some(47) }
    else if str_eq(u, "FWRITE") { Some(48) }
    else if str_eq(u, "FWRITELN") { Some(49) }
    else if str_eq(u, "READFILE$") { Some(50) }
    else if str_eq(u, "WRITEFILE") { Some(51) }
    else if str_eq(u, "APPENDFILE") { Some(52) }
    else if str_eq(u, "COPY") { Some(53) }
    else if str_eq(u, "MOVE") { Some(54) }
    else if str_eq(u, "RENAME") { Some(55) }
    else if str_eq(u, "DELETE") { Some(56) }
    else if str_eq(u, "DIR$") { Some(57) }
    else if str_eq(u, "ENV$") { Some(58) }
    else if str_eq(u, "LOADENV%") { Some(63) }
    else if str_eq(u, "MKDIRS%") { Some(62) }
    else if str_eq(u, "ARRAY_ROWS%") { Some(139) }
    else if str_eq(u, "ARRAY_COLS%") { Some(140) }
    else { None }
}

fn binop_exec(op: BinOp) -> (r: u8)
    ensures
        r == binop_code(op),
{
    match op {
        BinOp::Add => Op::Add.code(),
        BinOp::Sub => Op::Sub.code(),
        BinOp::Mul => Op::Mul.code(),
        BinOp::Div => Op::Div.code(),
        BinOp::Mod => Op::Mod.code(),
        BinOp::Eq => Op::Eq.code(),
        BinOp::Ne => Op::Ne.code(),
        BinOp::Lt => Op::Lt.code(),
        BinOp::Le => Op::Le.code(),
        BinOp::Gt => Op::Gt.code(),
        BinOp::Ge => Op::Ge.code(),
        _ => 0,
    }
}

fn emit_not_tail(c: &mut Chunk)
    ensures
        chunk_view(*final(c)) == not_tail(chunk_view(*old(c))),
        final(c).code@.len() >= old(c).code@.len(),
{
    e_op(c, Op::JumpIfFalse);
    let jf = e_hole(c);
    let cf = e_const(c, ConstValue::Bool(false));
    e_op(c, Op::Const);
    e_u16(c, cf);
    e_op(c, Op::Jump);
    let jend = e_hole(c);
    let here1 = c.here();
    e_patch(c, jf, (here1 - (jf + 2)) as u16);
    let ct = e_const(c, ConstValue::Bool(true));
    e_op(c, Op::Const);
    e_u16(c, ct);
    let here2 = c.here();
    e_patch(c, jend, (here2 - (jend + 2)) as u16);
}

fn emit_and_tail(c: &mut Chunk, jl: usize)
    requires
        jl + 2 <= old(c).code@.len(),
    ensures
        chunk_view(*final(c)) == and_tail(chunk_view(*old(c)), jl as int),
        final(c).code@.len() >= old(c).code@.len(),
{
    e_op(c, Op::JumpIfFalse);
    let jr = e_hole(c);
    let ct = e_const(c, ConstValue::Bool(true));
    e_op(c, Op::Const);
    e_u16(c, ct);
    e_op(c, Op::Jump);
    let jend = e_hole(c);
    let lf = c.here();
    e_patch(c, jl, (lf - (jl + 2)) as u16);
    e_patch(c, jr, (lf - (jr + 2)) as u16);
    let cf = e_const(c, ConstValue::Bool(false));
    e_op(c, Op::Const);
    e_u16(c, cf);
    let le = c.here();
    e_patch(c, jend, (le - (jend + 2)) as u16);
}

fn emit_or_head(c: &mut Chunk) -> (jend: usize)
    ensures
        (chunk_view(*final(c)), jend as int) == or_head(chunk_view(*old(c))),
        final(c).code@.len() >= old(c).code@.len(),
        jend + 2 <= final(c).code@.len(),
{
    e_op(c, Op::JumpIfFalse);
    let jr = e_hole(c);
    let ct = e_const(c, ConstValue::Bool(true));
    e_op(c, Op::Const);
    e_u16(c, ct);
    e_op(c, Op::Jump);
    let jend = e_hole(c);
    let lr = c.here();
    e_patch(c, jr, (lr - (jr + 2)) as u16);
    jend
}

fn emit_or_tail(c: &mut Chunk, jend: usize)
    requires
        jend + 2 <= old(c).code@.len(),
    ensures
        chunk_view(*final(c)) == or_tail(chunk_view(*old(c)), jend as int),
        final(c).code@.len() >= old(c).code@.len(),
{
    e_op(c, Op::JumpIfFalse);
    let jf = e_hole(c);
    let ct2 = e_const(c, ConstValue::Bool(true));
    e_op(c, Op::Const);
    e_u16(c, ct2);
    e_op(c, Op::Jump);
    let jend2 = e_hole(c);
    let lfalse = c.here();
    e_patch(c, jf, (lfalse - (jf + 2)) as u16);
    let cf = e_const(c, ConstValue::Bool(false));
    e_op(c, Op::Const);
    e_u16(c, cf);
    let le = c.here();
    e_patch(c, jend, (le - (jend + 2)) as u16);
    e_patch(c, jend2, (le - (jend2 + 2)) as u16);
}

// ---------------------------------------------------------------------
// SELECT CASE

/// The test of one CASE pattern against the variable `tmp` that holds the
/// selector.
pub open spec fn case_test(tmp: Seq<char>, p: CasePatternView) -> ExprView {
    let v = Box::new(ExprView::Var(tmp));
    match p {
        CasePatternView::Value(x) => ExprView::Binary { op: BinOp::Eq, lhs: v, rhs: Box::new(x) },
        CasePatternView::Range { lo, hi } => ExprView::Binary {
            op: BinOp::And,
            lhs: Box::new(ExprView::Binary { op: BinOp::Ge, lhs: v, rhs: Box::new(lo) }),
            rhs: Box::new(ExprView::Binary { op: BinOp::Le, lhs: v, rhs: Box::new(hi) }),
        },
        CasePatternView::Compare { op, rhs } => ExprView::Binary { op, lhs: v, rhs: Box::new(rhs) },
    }
}

/// The condition of a CASE arm: its pattern tests joined by OR from the left,
/// or FALSE for an arm without patterns.
pub open spec fn case_condition_of(tmp: Seq<char>, ps: Seq<CasePatternView>) -> ExprView
    decreases ps.len(),
{
    if ps.len() == 0 {
        ExprView::Bool(false)
    } else if ps.len() == 1 {
        case_test(tmp, ps[0])
    } else {
        ExprView::Binary {
            op: BinOp::Or,
            lhs: Box::new(case_condition_of(tmp, ps.drop_last())),
            rhs: Box::new(case_test(tmp, ps.last())),
        }
    }
}

fn case_test_exec(tmp: &str, p: &CasePattern) -> (r: Expr)
    ensures
        expr_view(r) == case_test(tmp@, pattern_view(*p)),
{
    match p {
        CasePattern::Value(x) => {
            let v = Expr::Var(string_of(tmp));
            let y = copy_expr(x);
            proof {
                assert(expr_view(y) == expr_view(*x));
                assert(pattern_view(*p) == CasePatternView::Value(expr_view(*x)));
            }
            let r = Expr::Binary { op: BinOp::Eq, lhs: Box::new(v), rhs: Box::new(y) };
            assert(expr_view(v) == ExprView::Var(tmp@));
            assert(expr_view(r) == ExprView::Binary { op: BinOp::Eq, lhs: Box::new(ExprView::Var(tmp@)), rhs: Box::new(expr_view(*x)) });
            assert(expr_view(r) == case_test(tmp@, pattern_view(*p)));
            r
        },
        CasePattern::Range { lo, hi } => {
            let v1 = Expr::Var(string_of(tmp));
            let y1 = copy_expr(lo);
            let v2 = Expr::Var(string_of(tmp));
            let y2 = copy_expr(hi);
            assert(expr_view(v1) == ExprView::Var(tmp@));
            assert(expr_view(v2) == ExprView::Var(tmp@));
            let ge = Expr::Binary { op: BinOp::Ge, lhs: Box::new(v1), rhs: Box::new(y1) };
            let le = Expr::Binary { op: BinOp::Le, lhs: Box::new(v2), rhs: Box::new(y2) };
            let r = Expr::Binary { op: BinOp::And, lhs: Box::new(ge), rhs: Box::new(le) };
            assert(pattern_view(*p) == CasePatternView::Range { lo: expr_view(*lo), hi: expr_view(*hi) });
            assert(expr_view(ge) == ExprView::Binary { op: BinOp::Ge, lhs: Box::new(ExprView::Var(tmp@)), rhs: Box::new(expr_view(*lo)) });
            assert(expr_view(le) == ExprView::Binary { op: BinOp::Le, lhs: Box::new(ExprView::Var(tmp@)), rhs: Box::new(expr_view(*hi)) });
            assert(expr_view(r) == case_test(tmp@, pattern_view(*p)));
            r
        },
        CasePattern::Compare { op, rhs } => {
            let v = Expr::Var(string_of(tmp));
            let y = copy_expr(rhs);
            let r = Expr::Binary { op: *op, lhs: Box::new(v), rhs: Box::new(y) };
            assert(pattern_view(*p) == CasePatternView::Compare { op: *op, rhs: expr_view(*rhs) });
            assert(expr_view(v) == ExprView::Var(tmp@));
            assert(expr_view(r) == case_test(tmp@, pattern_view(*p)));
            r
        },
    }
}

/// The condition under which a CASE arm with patterns `ps` is taken, as a test
/// of the variable `tmp` that holds the selector.
pub fn case_condition(tmp: &str, ps: &Vec<CasePattern>) -> (r: Expr)
    ensures
        expr_view(r) == case_condition_of(tmp@, patterns_view(ps@)),
{
    let ghost pv = patterns_view(ps@);
    let mut cond: Option<Expr> = None;
    let mut i: usize = 0;
    while i < ps.len()
        invariant
            i <= ps.len(),
            pv == patterns_view(ps@),
            pv.len() == ps@.len(),
            i == 0 ==> cond is None,
            i > 0 ==> (cond matches Some(x) && expr_view(x) == case_condition_of(tmp@, pv.take(i as int))),
        decreases ps.len() - i,
    {
        let one = case_test_exec(tmp, &ps[i]);
        proof {
            assert(pv[i as int] == pattern_view(ps@[i as int]));
            let t = pv.take(i + 1);
            assert(t.drop_last() =~= pv.take(i as int));
            assert(t.last() == pv[i as int]);
            if i == 0 {
                assert(t.len() == 1 && t[0] == pv[0]);
            }
        }
        cond = match cond {
            None => Some(one),
            Some(prev) => Some(Expr::Binary { op: BinOp::Or, lhs: Box::new(prev), rhs: Box::new(one) }),
        };
        i += 1;
    }
    match cond {
        None => {
            proof {
                assert(pv.len() == 0);
            }
            Expr::Bool(false)
        },
        Some(x) => {
            proof {
                assert(pv.take(ps.len() as int) =~= pv);
            }
            x
        },
    }
}

// ---------------------------------------------------------------------
// TYPE definitions

/// One field of a TYPE as the runtime's struct registry reads it: its name,
/// `|` and a kind letter, with the byte size or the type name after another `|`.
pub open spec fn field_spec(f: FieldView) -> Seq<char> {
    f.name + match f.kind {
        FieldKindView::Int32 => "|I"@,
        FieldKindView::Float64 => "|F"@,
        FieldKindView::VarString => "|S"@,
        FieldKindView::FixedString(n) => "|X|"@ + decimal(n as nat),
        FieldKindView::Struct(t) => "|T|"@ + t,
    }
}

/// The fields of a TYPE, each as `field_spec` gives it, separated by `;`.
pub open spec fn struct_spec_of(fs: Seq<FieldView>) -> Seq<char>
    decreases fs.len(),
{
    if fs.len() == 0 {
        Seq::empty()
    } else if fs.len() == 1 {
        field_spec(fs[0])
    } else {
        struct_spec_of(fs.drop_last()) + ";"@ + field_spec(fs.last())
    }
}

/// The code that registers a TYPE at run time: its name and field list as
/// constants, and the builtin `STRUCT_REG` on them, whose value is dropped.
pub open spec fn c_type_registration(c: ChunkView, name: Seq<char>, fs: Seq<FieldView>) -> ChunkView {
    let (c1, nci) = c_const(c, ValueView::Str(name));
    let (c2, sci) = c_const(c1, ValueView::Str(struct_spec_of(fs)));
    c_op(c_u8(c_u8(c_op(c_u16(c_op(c_u16(c_op(c2, Op::Const), nci), Op::Const), sci), Op::Builtin), 161), 2), Op::Pop)
}

/// The field list of a TYPE in the form that the runtime's struct registry reads.
pub fn struct_spec(fields: &Vec<StructField>) -> (s: String)
    ensures
        s@ == struct_spec_of(fields_view(fields@)),
{
    let ghost fv = fields_view(fields@);
    let mut s = String::new();
    let mut i: usize = 0;
    while i < fields.len()
        invariant
            i <= fields.len(),
            fv == fields_view(fields@),
            fv.len() == fields@.len(),
            s@ == struct_spec_of(fv.take(i as int)),
        decreases fields.len() - i,
    {
        let ghost before = s@;
        if i > 0 {
            push_char(&mut s, ';');
        }
        let f = &fields[i];
        push_str(&mut s, f.name.as_str());
        match &f.kind {
            StructFieldKind::Int32 => push_str(&mut s, "|I"),
            StructFieldKind::Float64 => push_str(&mut s, "|F"),
            StructFieldKind::VarString => push_str(&mut s, "|S"),
            StructFieldKind::FixedString(n) => {
                push_str(&mut s, "|X|");
                push_decimal(&mut s, *n as u64);
            },
            StructFieldKind::Struct(tn) => {
                push_str(&mut s, "|T|");
                push_str(&mut s, tn.as_str());
            },
        }
        proof {
            reveal_strlit("|I");
            reveal_strlit("|F");
            reveal_strlit("|S");
            reveal_strlit("|X|");
            reveal_strlit("|T|");
            reveal_strlit(";");
            assert(fv[i as int] == field_view(fields@[i as int]));
            let t = fv.take(i + 1);
            assert(t.drop_last() =~= fv.take(i as int));
            assert(t.last() == fv[i as int]);
            if i == 0 {
                assert(t.len() == 1 && t[0] == fv[0]);
                assert(s@ =~= field_spec(fv[0]));
            } else {
                assert(s@ =~= before + ";"@ + field_spec(fv[i as int]));
            }
        }
        i += 1;
    }
    proof {
        assert(fv.take(fields.len() as int) =~= fv);
        if fields.len() == 0 {
            assert(s@ =~= Seq::<char>::empty());
        }
    }
    s
}

/// Emits the registration of TYPE `name` with `fields`.
pub fn emit_type_registration(c: &mut Chunk, name: &String, fields: &Vec<StructField>)
    ensures
        chunk_view(*final(c)) == c_type_registration(chunk_view(*old(c)), name@, fields_view(fields@)),
{
    let spec = struct_spec(fields);
    let nci = e_const(c, ConstValue::Str(name.clone()));
    let sci = e_const(c, ConstValue::Str(spec));
    e_op(c, Op::Const);
    e_u16(c, nci);
    e_op(c, Op::Const);
    e_u16(c, sci);
    e_op(c, Op::Builtin);
    e_u8(c, 161u8);
    e_u8(c, 2u8);
    e_op(c, Op::Pop);
}

// ---------------------------------------------------------------------
// The routines of a program

pub open spec fn routines_view(rs: Seq<Routine>) -> Seq<(Seq<char>, usize, bool)> {
    rs.map_values(|r: Routine| (r.name@, r.arity, r.is_sub))
}

/// The FUNC and SUB declarations at the top level of a program, by name in
/// upper case with their arity and kind, the latest declaration first, so that
/// a lookup from the start finds the declaration that stands last.
pub open spec fn routines_of(ss: Seq<StmtView>) -> Seq<(Seq<char>, usize, bool)>
    decreases ss.len(),
{
    if ss.len() == 0 {
        Seq::empty()
    } else {
        let rest = routines_of(ss.drop_last());
        match ss.last() {
            StmtView::Func { kind, name, params, .. } => seq![
                (upper_seq(name), params.len() as usize, kind == FuncKind::Sub),
            ] + rest,
            _ => rest,
        }
    }
}

/// The routines of a program, found before any code is emitted so that a call
/// may stand before the declaration it calls.
pub fn collect_routines(ast: &Vec<Stmt>) -> (r: Vec<Routine>)
    ensures
        routines_view(r@) == routines_of(stmts_view(ast@)),
{
    let ghost sv = stmts_view(ast@);
    proof {
        lemma_stmts_view_index(ast@);
    }
    let mut out: Vec<Routine> = Vec::new();
    let mut i: usize = 0;
    while i < ast.len()
        invariant
            i <= ast.len(),
            sv == stmts_view(ast@),
            sv.len() == ast@.len(),
            forall|k: int| 0 <= k < ast@.len() ==> #[trigger] sv[k] == stmt_view(ast@[k]),
            routines_view(out@) == routines_of(sv.take(i as int)),
        decreases ast.len() - i,
    {
        let ghost before = out@;
        proof {
            let t = sv.take(i + 1);
            assert(t.drop_last() =~= sv.take(i as int));
            assert(t.last() == sv[i as int]);
        }
        match &ast[i] {
            Stmt::Func { kind, name, params, .. } => {
                let is_sub = match kind {
                    FuncKind::Sub => true,
                    FuncKind::Func => false,
                };
                let r = Routine { name: ascii_upper(name.as_str()), arity: params.len(), is_sub };
                out.insert(0, r);
                proof {
                    assert(sv[i as int] == stmt_view(ast@[i as int]));
                    assert(routines_view(out@) =~= seq![(r.name@, r.arity, r.is_sub)] + routines_view(before));
                }
            },
            _ => {
                proof {
                    assert(sv[i as int] == stmt_view(ast@[i as int]));
                }
            },
        }
        i += 1;
    }
    proof {
        assert(sv.take(ast.len() as int) =~= sv);
    }
    out
}

/// A call finds the declaration of its routine that stands last in the
/// program: the routine named by the declaration at `i`, when no later
/// declaration has the same name in upper case, has that declaration's arity
/// and kind.
pub proof fn law_last_declaration_wins(ss: Seq<StmtView>, i: int)
    requires
        0 <= i < ss.len(),
        ss[i] is Func,
        forall|j: int| i < j < ss.len() && (#[trigger] ss[j]) is Func ==> upper_seq(ss[j]->Func_name) != upper_seq(
            ss[i]->Func_name,
        ),
    ensures
        routine(routines_of(ss), upper_seq(ss[i]->Func_name)) == Some(
            (ss[i]->Func_params.len() as usize, ss[i]->Func_kind == FuncKind::Sub),
        ),
    decreases ss.len(),
{
    let u = upper_seq(ss[i]->Func_name);
    let rest = routines_of(ss.drop_last());
    if i == ss.len() - 1 {
        let head = seq![(u, ss[i]->Func_params.len() as usize, ss[i]->Func_kind == FuncKind::Sub)];
        assert(routines_of(ss) == head + rest);
        assert((head + rest)[0] == head[0]);
    } else {
        let d = ss.drop_last();
        assert forall|j: int| i < j < d.len() && (#[trigger] d[j]) is Func implies upper_seq(d[j]->Func_name) != u by {
            assert(d[j] == ss[j]);
        }
        assert(d[i] == ss[i]);
        law_last_declaration_wins(d, i);
        let l = ss.last();
        assert(l == ss[ss.len() - 1]);
        if l is Func {
            let head = seq![(upper_seq(l->Func_name), l->Func_params.len() as usize, l->Func_kind == FuncKind::Sub)];
            assert(routines_of(ss) == head + rest);
            assert((head + rest)[0].0 != u);
            assert((head + rest).drop_first() =~= rest);
        } else {
            assert(routines_of(ss) == rest);
        }
    }
}

// ---------------------------------------------------------------------
// Line markers and fixed-length strings at the top level

/// A source line at the top level: the line that later messages name, and its
/// marker in the code.
pub fn mark_line(t: &mut Tables, c: &mut Chunk, line: u32)
    ensures
        tables_view(*final(t)) == (TablesView { cur_line: line, ..tables_view(*old(t)) }),
        chunk_view(*final(c)) == crate::jumps::c_line(chunk_view(*old(c)), line),
{
    t.cur_line = line;
    crate::jumps::emit_line(c, line);
}

/// `DIM name AS STRING * len` at the top level: the variable's length is
/// recorded (a later DIM of the same name is the one found) and the variable
/// starts as the empty string.
pub fn emit_dim_fixed_str(t: &mut Tables, globals: &mut Vec<String>, c: &mut Chunk, name: &String, len: usize)
    ensures
        tables_view(*final(t)) == (TablesView {
            fixed_globs: seq![(name@, len)] + tables_view(*old(t)).fixed_globs,
            ..tables_view(*old(t))
        }),
        ({
            let (g, slot) = gslot(names_view(old(globals)@), name@);
            &&& names_view(final(globals)@) == g
            &&& chunk_view(*final(c)) == c_u8(
                c_op(c_load(chunk_view(*old(c)), Op::Const, ValueView::Str(Seq::empty())), Op::StoreGlobal),
                slot,
            )
        }),
{
    let ghost before = t.fixed_globs@;
    t.fixed_globs.insert(0, (name.clone(), len));
    proof {
        assert(pairs_view(t.fixed_globs@) =~= seq![(name@, len)] + pairs_view(before));
    }
    let empty = String::new();
    proof {
        assert(empty@ =~= Seq::<char>::empty());
    }
    e_load(c, Op::Const, ConstValue::Str(empty));
    let g = gslot_of(globals, name.as_str());
    e_op(c, Op::StoreGlobal);
    e_u8(c, g);
}

fn copy_fields(fs: &Vec<StructField>) -> (r: Vec<StructField>)
    ensures
        fields_view(r@) == fields_view(fs@),
{
    let mut out: Vec<StructField> = Vec::new();
    let mut i: usize = 0;
    while i < fs.len()
        invariant
            i <= fs.len(),
            fields_view(out@) == fields_view(fs@.take(i as int)),
        decreases fs.len() - i,
    {
        let f = &fs[i];
        let kind = match &f.kind {
            StructFieldKind::Int32 => StructFieldKind::Int32,
            StructFieldKind::Float64 => StructFieldKind::Float64,
            StructFieldKind::VarString => StructFieldKind::VarString,
            StructFieldKind::FixedString(n) => StructFieldKind::FixedString(*n),
            StructFieldKind::Struct(tn) => StructFieldKind::Struct(tn.clone()),
        };
        let g = StructField { name: f.name.clone(), kind };
        let ghost before = out@;
        out.push(g);
        proof {
            assert(field_view(g) == field_view(fs@[i as int]));
            assert(out@ =~= before.push(g));
            assert(fs@.take(i + 1) =~= fs@.take(i as int).push(fs@[i as int]));
            assert(fields_view(before.push(g)) =~= fields_view(before).push(field_view(g)));
            assert(fields_view(fs@.take(i as int).push(fs@[i as int])) =~= fields_view(fs@.take(i as int)).push(
                field_view(fs@[i as int]),
            ));
            assert(fields_view(out@) =~= fields_view(fs@.take(i + 1)));
        }
        i += 1;
    }
    proof {
        assert(fs@.take(fs.len() as int) =~= fs@);
    }
    out
}

/// A TYPE definition at the top level: the type is recorded under its name in
/// upper case (a later definition of the same name is the one found) and
/// registered with the runtime.
pub fn emit_type_def(t: &mut Tables, c: &mut Chunk, name: &String, fields: &Vec<StructField>)
    ensures
        tables_view(*final(t)) == (TablesView {
            types: seq![(upper_seq(name@), fields_view(fields@))] + tables_view(*old(t)).types,
            ..tables_view(*old(t))
        }),
        chunk_view(*final(c)) == c_type_registration(chunk_view(*old(c)), name@, fields_view(fields@)),
{
    let ghost before = t.struct_types@;
    let st = StructType { name: ascii_upper(name.as_str()), fields: copy_fields(fields) };
    t.struct_types.insert(0, st);
    proof {
        assert(t.struct_types@.map_values(|s: StructType| (s.name@, fields_view(s.fields@))) =~= seq![
            (upper_seq(name@), fields_view(fields@)),
        ] + before.map_values(|s: StructType| (s.name@, fields_view(s.fields@))));
    }
    emit_type_registration(c, name, fields);
}

// ---------------------------------------------------------------------
// DIM of arrays and PRINT at the top level

/// The element kind of an array by the suffix of its name: 1 for `%`
/// (integers), 2 for `$` (strings), 0 otherwise.
pub open spec fn array_elem_kind(name: Seq<char>) -> u8 {
    if name.len() > 0 && name.last() == '%' {
        1
    } else if name.len() > 0 && name.last() == '$' {
        2
    } else {
        0
    }
}

/// The code and globals of `DIM name(dims)` at the top level: the dimensions,
/// `ArrMake` with their count, the element kind and no type name (0xFFFF), and
/// the store into the array's global; or the message of the first dimension
/// that fails to compile.
pub open spec fn dim_array_code(t: TablesView, g: Seq<Seq<char>>, c: ChunkView, name: Seq<char>, dims: Seq<ExprView>) -> Result<(Seq<Seq<char>>, ChunkView), Seq<char>> {
    match ex_list(t, None, g, c, dims) {
        Err(m) => Err(m),
        Ok((g1, c1)) => {
            let c2 = c_u16(c_u8(c_u8(c_op(c1, Op::ArrMake), dims.len() as u8), array_elem_kind(name)), 0xFFFF);
            let (g2, slot) = gslot(g1, name);
            Ok((g2, c_u8(c_op(c2, Op::StoreGlobal), slot)))
        },
    }
}

fn ends_with_char(s: &str, ch: char) -> (r: bool)
    ensures
        r == (s@.len() > 0 && s@.last() == ch),
{
    let n = s.unicode_len();
    if n == 0 {
        false
    } else {
        s.get_char(n - 1) == ch
    }
}

/// `DIM name(dims)` of an array at the top level.
pub fn emit_dim_array(t: &Tables, globals: &mut Vec<String>, c: &mut Chunk, name: &String, dims: &Vec<Expr>) -> (r: Result<(), BasilError>)
    ensures
        match dim_array_code(tables_view(*t), names_view(old(globals)@), chunk_view(*old(c)), name@, exprs_view(dims@)) {
            Ok((g, cv)) => r is Ok && names_view(final(globals)@) == g && chunk_view(*final(c)) == cv,
            Err(m) => r matches Err(x) && x.0@ == m,
        },
{
    match emit_list(t, None, globals, c, dims) {
        Err(e) => return Err(e),
        Ok(()) => {},
    }
    proof {
        crate::ast::lemma_exprs_view_index(dims@);
    }
    e_op(c, Op::ArrMake);
    e_u8(c, #[verifier::truncate] (dims.len() as u8));
    let et: u8 = if ends_with_char(name.as_str(), '%') {
        1
    } else if ends_with_char(name.as_str(), '$') {
        2
    } else {
        0
    };
    e_u8(c, et);
    e_u16(c, 0xFFFF);
    let g = gslot_of(globals, name.as_str());
    e_op(c, Op::StoreGlobal);
    e_u8(c, g);
    Ok(())
}

/// `PRINT expr` at the top level: the expression and `Print`, or the message
/// of the expression that fails to compile.
pub fn emit_print(t: &Tables, globals: &mut Vec<String>, c: &mut Chunk, e: &Expr) -> (r: Result<(), BasilError>)
    ensures
        match ex(tables_view(*t), None, names_view(old(globals)@), chunk_view(*old(c)), expr_view(*e)) {
            Ok((g, cv)) => r is Ok && names_view(final(globals)@) == g && chunk_view(*final(c)) == c_op(cv, Op::Print),
            Err(m) => r matches Err(x) && x.0@ == m,
        },
{
    match emit_expr(t, None, globals, c, e) {
        Err(x) => Err(x),
        Ok(()) => {
            e_op(c, Op::Print);
            Ok(())
        },
    }
}

// ---------------------------------------------------------------------
// LET at the top level

pub open spec fn ends_with(s: Seq<char>, ch: char) -> bool {
    s.len() > 0 && s.last() == ch
}

/// `c` followed by the call of builtin `id` on `argc` arguments.
pub open spec fn c_builtin(c: ChunkView, id: u8, argc: u8) -> ChunkView {
    c_u8(c_u8(c_op(c, Op::Builtin), id), argc)
}

/// The value on the stack stored into the global `name`.
pub open spec fn c_store(g: Seq<Seq<char>>, c: ChunkView, name: Seq<char>) -> (Seq<Seq<char>>, ChunkView) {
    let (g2, slot) = gslot(g, name);
    (g2, c_u8(c_op(c, Op::StoreGlobal), slot))
}

/// The code and globals of `LET name[(indices)] = init` at the top level.
/// A struct variable set from a string variable is unpacked (`STRUCT_UNPACK`),
/// a string variable set from a struct variable is packed (`STRUCT_PACK`); a
/// fixed-length string is cut or padded to its length, a `%` variable is made
/// an integer. With indices one array element is set, with empty indices a
/// whole string array is converted from its two-dimensional form.
pub open spec fn let_code(t: TablesView, g: Seq<Seq<char>>, c: ChunkView, name: Seq<char>, indices: Option<Seq<ExprView>>, init: ExprView) -> Result<(Seq<Seq<char>>, ChunkView), Seq<char>> {
    match indices {
        None => {
            let unpack = match assoc(t.var_struct_globs, name) {
                Some(ty) => match init {
                    ExprView::Var(rn) => if ends_with(rn, '$') { Some(ty) } else { None },
                    _ => None,
                },
                None => None,
            };
            let pack = if ends_with(name, '$') {
                match init {
                    ExprView::Var(rn) => assoc(t.var_struct_globs, rn),
                    _ => None,
                }
            } else {
                None
            };
            match ex(t, None, g, c, init) {
                Err(m) => Err(m),
                Ok((g1, c1)) => match unpack {
                    Some(ty) => Ok(c_store(g1, c_builtin(c_load(c1, Op::Const, ValueView::Str(ty)), 164, 2), name)),
                    None => match pack {
                        Some(ty) => Ok(c_store(g1, c_builtin(c_load(c1, Op::Const, ValueView::Str(ty)), 163, 2), name)),
                        None => {
                            let c2 = match assoc(t.fixed_globs, name) {
                                Some(n) => c_builtin(c_load(c1, Op::Const, ValueView::Int(n as i64)), 160, 2),
                                None => if ends_with(name, '%') { c_op(c1, Op::ToInt) } else { c1 },
                            };
                            Ok(c_store(g1, c2, name))
                        },
                    },
                },
            }
        },
        Some(idxs) => if idxs.len() == 0 {
            match ex(t, None, g, c, init) {
                Err(m) => Err(m),
                Ok((g1, c1)) => Ok(c_store(g1, c_builtin(c1, 138, 1), name)),
            }
        } else {
            let (g1, slot) = gslot(g, name);
            let c1 = c_u8(c_op(c, Op::LoadGlobal), slot);
            match ex_list(t, None, g1, c1, idxs) {
                Err(m) => Err(m),
                Ok((g2, c2)) => match ex(t, None, g2, c2, init) {
                    Err(m) => Err(m),
                    Ok((g3, c3)) => Ok((g3, c_u8(c_op(c3, Op::ArrSet), idxs.len() as u8))),
                },
            }
        },
    }
}

fn store_global(globals: &mut Vec<String>, c: &mut Chunk, name: &String)
    ensures
        (names_view(final(globals)@), chunk_view(*final(c))) == c_store(names_view(old(globals)@), chunk_view(*old(c)), name@),
{
    let g = gslot_of(globals, name.as_str());
    e_op(c, Op::StoreGlobal);
    e_u8(c, g);
}

fn emit_builtin(c: &mut Chunk, id: u8, argc: u8)
    ensures
        chunk_view(*final(c)) == c_builtin(chunk_view(*old(c)), id, argc),
{
    e_op(c, Op::Builtin);
    e_u8(c, id);
    e_u8(c, argc);
}

/// `LET name[(indices)] = init` at the top level.
pub fn emit_let(t: &Tables, globals: &mut Vec<String>, c: &mut Chunk, name: &String, indices: &Option<Vec<Expr>>, init: &Expr) -> (r: Result<(), BasilError>)
    ensures
        match let_code(
            tables_view(*t),
            names_view(old(globals)@),
            chunk_view(*old(c)),
            name@,
            match indices {
                Some(v) => Some(exprs_view(v@)),
                None => None,
            },
            expr_view(*init),
        ) {
            Ok((g, cv)) => r is Ok && names_view(final(globals)@) == g && chunk_view(*final(c)) == cv,
            Err(m) => r matches Err(x) && x.0@ == m,
        },
{
    match indices {
        None => {
            let mut unpack: Option<String> = None;
            match find_name(&t.var_struct_globs, name.as_str()) {
                Some(ty) => {
                    match init {
                        Expr::Var(rn) => {
                            if ends_with_char(rn.as_str(), '$') {
                                unpack = Some(ty);
                            }
                        },
                        _ => {},
                    }
                },
                None => {},
            }
            let mut pack: Option<String> = None;
            if ends_with_char(name.as_str(), '$') {
                match init {
                    Expr::Var(rn) => {
                        pack = find_name(&t.var_struct_globs, rn.as_str());
                    },
                    _ => {},
                }
            }
            match emit_expr(t, None, globals, c, init) {
                Err(e) => return Err(e),
                Ok(()) => {},
            }
            match unpack {
                Some(ty) => {
                    e_load(c, Op::Const, ConstValue::Str(ty));
                    emit_builtin(c, 164, 2);
                },
                None => match pack {
                    Some(ty) => {
                        e_load(c, Op::Const, ConstValue::Str(ty));
                        emit_builtin(c, 163, 2);
                    },
                    None => match find_usize(&t.fixed_globs, name.as_str()) {
                        Some(n) => {
                            e_load(c, Op::Const, ConstValue::Int(#[verifier::truncate] (n as i64)));
                            emit_builtin(c, 160, 2);
                        },
                        None => {
                            if ends_with_char(name.as_str(), '%') {
                                e_op(c, Op::ToInt);
                            }
                        },
                    },
                },
            }
            store_global(globals, c, name);
            Ok(())
        },
        Some(idxs) => {
            if idxs.len() == 0 {
                match emit_expr(t, None, globals, c, init) {
                    Err(e) => return Err(e),
                    Ok(()) => {},
                }
                emit_builtin(c, 138, 1);
                store_global(globals, c, name);
                Ok(())
            } else {
                let g = gslot_of(globals, name.as_str());
                e_op(c, Op::LoadGlobal);
                e_u8(c, g);
                match emit_list(t, None, globals, c, idxs) {
                    Err(e) => return Err(e),
                    Ok(()) => {},
                }
                match emit_expr(t, None, globals, c, init) {
                    Err(e) => return Err(e),
                    Ok(()) => {},
                }
                proof {
                    crate::ast::lemma_exprs_view_index(idxs@);
                }
                e_op(c, Op::ArrSet);
                e_u8(c, #[verifier::truncate] (idxs.len() as u8));
                Ok(())
            }
        },
    }
}

/// `c` followed by the operations `ops`, in order.
pub open spec fn c_ops(c: ChunkView, ops: Seq<Op>) -> ChunkView
    decreases ops.len(),
{
    if ops.len() == 0 {
        c
    } else {
        c_op(c_ops(c, ops.drop_last()), ops.last())
    }
}

/// The code of a statement that evaluates `e` at the top level and then runs
/// the operations `ops` on it, or the message of `e` failing to compile.
pub open spec fn expr_then(t: TablesView, g: Seq<Seq<char>>, c: ChunkView, e: ExprView, ops: Seq<Op>) -> Result<(Seq<Seq<char>>, ChunkView), Seq<char>> {
    match ex(t, None, g, c, e) {
        Err(m) => Err(m),
        Ok((g1, c1)) => Ok((g1, c_ops(c1, ops))),
    }
}

/// `EXEC code` at the top level: the text is run as Basil code.
pub fn emit_exec(t: &Tables, globals: &mut Vec<String>, c: &mut Chunk, code: &Expr) -> (r: Result<(), BasilError>)
    ensures
        match expr_then(tables_view(*t), names_view(old(globals)@), chunk_view(*old(c)), expr_view(*code), seq![Op::ExecString]) {
            Ok((g, cv)) => r is Ok && names_view(final(globals)@) == g && chunk_view(*final(c)) == cv,
            Err(m) => r matches Err(x) && x.0@ == m,
        },
{
    match emit_expr(t, None, globals, c, code) {
        Err(x) => Err(x),
        Ok(()) => {
            let ghost c1 = chunk_view(*c);
            e_op(c, Op::ExecString);
            proof {
                let ops = seq![Op::ExecString];
                assert(ops.drop_last() =~= Seq::<Op>::empty());
                assert(c_ops(c1, ops) == c_op(c_ops(c1, ops.drop_last()), Op::ExecString));
            }
            Ok(())
        },
    }
}

/// `DESCRIBE target` at the top level: the description of an object, printed.
pub fn emit_describe(t: &Tables, globals: &mut Vec<String>, c: &mut Chunk, target: &Expr) -> (r: Result<(), BasilError>)
    ensures
        match expr_then(tables_view(*t), names_view(old(globals)@), chunk_view(*old(c)), expr_view(*target), seq![Op::DescribeObj, Op::Print]) {
            Ok((g, cv)) => r is Ok && names_view(final(globals)@) == g && chunk_view(*final(c)) == cv,
            Err(m) => r matches Err(x) && x.0@ == m,
        },
{
    match emit_expr(t, None, globals, c, target) {
        Err(x) => Err(x),
        Ok(()) => {
            let ghost c1 = chunk_view(*c);
            e_op(c, Op::DescribeObj);
            e_op(c, Op::Print);
            proof {
                let ops = seq![Op::DescribeObj, Op::Print];
                let o1 = seq![Op::DescribeObj];
                assert(ops.drop_last() =~= o1);
                assert(o1.drop_last() =~= Seq::<Op>::empty());
                assert(c_ops(c1, o1) == c_op(c_ops(c1, o1.drop_last()), Op::DescribeObj));
                assert(c_ops(c1, ops) == c_op(c_ops(c1, o1), Op::Print));
            }
            Ok(())
        },
    }
}

/// `RAISE [expr]` at the top level: a new error from the value of `expr`, or
/// the current error raised again when there is none.
pub fn emit_raise(t: &Tables, globals: &mut Vec<String>, c: &mut Chunk, e: &Option<Expr>) -> (r: Result<(), BasilError>)
    ensures
        match e {
            Some(x) => match expr_then(tables_view(*t), names_view(old(globals)@), chunk_view(*old(c)), expr_view(*x), seq![Op::Raise]) {
                Ok((g, cv)) => r is Ok && names_view(final(globals)@) == g && chunk_view(*final(c)) == cv,
                Err(m) => r matches Err(y) && y.0@ == m,
            },
            None => r is Ok && final(globals)@ == old(globals)@ && chunk_view(*final(c)) == c_op(chunk_view(*old(c)), Op::Reraise),
        },
{
    match e {
        Some(x) => match emit_expr(t, None, globals, c, x) {
            Err(y) => Err(y),
            Ok(()) => {
                let ghost c1 = chunk_view(*c);
                e_op(c, Op::Raise);
                proof {
                    let ops = seq![Op::Raise];
                    assert(ops.drop_last() =~= Seq::<Op>::empty());
                    assert(c_ops(c1, ops) == c_op(c_ops(c1, ops.drop_last()), Op::Raise));
                }
                Ok(())
            },
        },
        None => {
            e_op(c, Op::Reraise);
            Ok(())
        },
    }
}

/// The code and globals of `DIM name(dims) AS [type]` of an object array at
/// the top level: the dimensions, `ArrMake` with their count, kind 3 and the
/// constant index of the element type's name (0xFFFF without one), and the
/// store into the array's global.
pub open spec fn dim_object_array_code(t: TablesView, g: Seq<Seq<char>>, c: ChunkView, name: Seq<char>, dims: Seq<ExprView>, type_label: Option<Seq<char>>) -> Result<(Seq<Seq<char>>, ChunkView), Seq<char>> {
    match ex_list(t, None, g, c, dims) {
        Err(m) => Err(m),
        Ok((g1, c1)) => {
            let c2 = c_u8(c_u8(c_op(c1, Op::ArrMake), dims.len() as u8), 3);
            let (c3, tci) = match type_label {
                Some(tn) => c_const(c2, ValueView::Str(tn)),
                None => (c2, 0xFFFFu16),
            };
            Ok(c_store(g1, c_u16(c3, tci), name))
        },
    }
}

/// `DIM name(dims) AS [type]` of an object array at the top level; with a
/// type, the array's element type is recorded under the array's name (a later
/// DIM of the same name is the one found), in upper case.
pub fn emit_dim_object_array(t: &mut Tables, globals: &mut Vec<String>, c: &mut Chunk, name: &String, dims: &Vec<Expr>, type_label: &Option<String>) -> (r: Result<(), BasilError>)
    ensures
        match dim_object_array_code(
            tables_view(*old(t)),
            names_view(old(globals)@),
            chunk_view(*old(c)),
            name@,
            exprs_view(dims@),
            match type_label {
                Some(x) => Some(x@),
                None => None,
            },
        ) {
            Ok((g, cv)) => r is Ok && names_view(final(globals)@) == g && chunk_view(*final(c)) == cv
                && tables_view(*final(t)) == match type_label {
                Some(tn) => TablesView {
                    var_struct_array_globs: seq![(name@, upper_seq(tn@))] + tables_view(*old(t)).var_struct_array_globs,
                    ..tables_view(*old(t))
                },
                None => tables_view(*old(t)),
            },
            Err(m) => r matches Err(x) && x.0@ == m,
        },
{
    match emit_list(t, None, globals, c, dims) {
        Err(e) => return Err(e),
        Ok(()) => {},
    }
    proof {
        crate::ast::lemma_exprs_view_index(dims@);
    }
    e_op(c, Op::ArrMake);
    e_u8(c, #[verifier::truncate] (dims.len() as u8));
    e_u8(c, 3u8);
    let tci: u16 = match type_label {
        Some(tn) => {
            let ghost before = t.var_struct_array_globs@;
            t.var_struct_array_globs.insert(0, (name.clone(), ascii_upper(tn.as_str())));
            proof {
                assert(names_pairs_view(t.var_struct_array_globs@) =~= seq![(name@, upper_seq(tn@))] + names_pairs_view(before));
            }
            e_const(c, ConstValue::Str(tn.clone()))
        },
        None => 0xFFFF,
    };
    e_u16(c, tci);
    store_global(globals, c, name);
    Ok(())
}

// ---------------------------------------------------------------------
// What binary operators mean

/// What a binary operator of Basil computes on two numbers (taken here as
/// integers); a comparison gives 1 when it holds and 0 when it does not.
pub open spec fn source_meaning(op: BinOp, x: int, y: int) -> int {
    match op {
        BinOp::Add => x + y,
        BinOp::Sub => x - y,
        BinOp::Mul => x * y,
        BinOp::Div => x / y,
        BinOp::Mod => x % y,
        BinOp::Eq => if x == y { 1 } else { 0 },
        BinOp::Ne => if x != y { 1 } else { 0 },
        BinOp::Lt => if x < y { 1 } else { 0 },
        BinOp::Le => if x <= y { 1 } else { 0 },
        BinOp::Gt => if x > y { 1 } else { 0 },
        BinOp::Ge => if x >= y { 1 } else { 0 },
        BinOp::And => if x != 0 && y != 0 { 1 } else { 0 },
        BinOp::Or => if x != 0 || y != 0 { 1 } else { 0 },
    }
}

/// What an operation of the virtual machine computes on the two numbers on top
/// of its stack (the lower one `x`); `None` for an operation that is not
/// arithmetic or a comparison.
pub open spec fn vm_meaning(o: Op, x: int, y: int) -> Option<int> {
    match o {
        Op::Add => Some(x + y),
        Op::Sub => Some(x - y),
        Op::Mul => Some(x * y),
        Op::Div => Some(x / y),
        Op::Mod => Some(x % y),
        Op::Eq => Some(if x == y { 1 } else { 0 }),
        Op::Ne => Some(if x != y { 1 } else { 0 }),
        Op::Lt => Some(if x < y { 1 } else { 0 }),
        Op::Le => Some(if x <= y { 1 } else { 0 }),
        Op::Gt => Some(if x > y { 1 } else { 0 }),
        Op::Ge => Some(if x >= y { 1 } else { 0 }),
        _ => None,
    }
}

/// A binary expression compiles to the operation of the machine that computes
/// what the operator means, on every pair of operands. (`AND` and `OR` are
/// compiled to jumps that skip the right operand, not to one operation.)
pub proof fn law_binary_operator_meaning(op: BinOp, x: int, y: int)
    requires
        op != BinOp::And,
        op != BinOp::Or,
    ensures
        op_of_code(binop_code(op)) matches Some(o) && vm_meaning(o, x, y) == Some(source_meaning(op, x, y)),
{
}

} // verus!
