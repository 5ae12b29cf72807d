//! Labels, GOTO and GOSUB within one scope of code (the top level or a
//! function body): labels are recorded where they stand, jumps are emitted
//! with a hole for their distance, and the holes are filled once every
//! label of the scope is known.
use vstd::prelude::*;

use crate::bytecode::{chunk_view, le16, op_code, opt_str_view, program_view, strs_view, Chunk, ChunkView, ConstValue, Function, Op, Program, ProgramView, ValueView};
use crate::common::BasilError;
use crate::compiler::{assoc, c_hole, c_load, c_op, c_u16, e_load, e_op, find_usize, fwd, pairs_view};
use crate::text::{push_str, string_of};

verus! {

/// A jump whose distance is filled in once its label is known: the position
/// of its operation byte, of its two operand bytes, and the label.
pub struct Fixup {
    pub op_pos: usize,
    pub at: usize,
    pub label: String,
}

/// The labels of one scope with their code positions, and its pending GOTO
/// and GOSUB jumps in the order they were emitted.
pub struct LabelScope {
    pub labels: Vec<(String, usize)>,
    pub gotos: Vec<Fixup>,
    pub gosubs: Vec<Fixup>,
}

pub struct FixupView {
    pub op_pos: int,
    pub at: int,
    pub label: Seq<char>,
}

pub struct LabelScopeView {
    pub labels: Seq<(Seq<char>, usize)>,
    pub gotos: Seq<FixupView>,
    pub gosubs: Seq<FixupView>,
}

pub open spec fn fixup_view(f: Fixup) -> FixupView {
    FixupView { op_pos: f.op_pos as int, at: f.at as int, label: f.label@ }
}

pub open spec fn fixups_view(s: Seq<Fixup>) -> Seq<FixupView> {
    s.map_values(|f: Fixup| fixup_view(f))
}

pub open spec fn label_scope_view(s: LabelScope) -> LabelScopeView {
    LabelScopeView {
        labels: pairs_view(s.labels@),
        gotos: fixups_view(s.gotos@),
        gosubs: fixups_view(s.gosubs@),
    }
}

pub open spec fn duplicate_label_msg(name: Seq<char>) -> Seq<char> {
    "Duplicate label: "@ + name
}

pub open spec fn undefined_label_msg(name: Seq<char>) -> Seq<char> {
    "Undefined label: "@ + name
}

/// A line number as the two-byte operand of `SetLine`: lines past the 16-bit
/// range are marked as the last line it can hold.
pub open spec fn line_operand(line: u32) -> u16 {
    if line <= 0xFFFF {
        line as u16
    } else {
        0xFFFFu16
    }
}

/// The chunk with the marker of source line `line` appended.
pub open spec fn c_line(c: ChunkView, line: u32) -> ChunkView {
    c_u16(c_op(c, Op::SetLine), line_operand(line))
}

/// `code` with `v` written in little-endian order at `at`.
pub open spec fn put16(code: Seq<u8>, at: int, v: u16) -> Seq<u8> {
    code.update(at, le16(v)[0]).update(at + 1, le16(v)[1])
}

/// The code with one jump resolved, or `None` when its label is not defined.
/// A target at or after the end of the operand gets a forward distance; one
/// before it turns the operation into `back` and gets the distance backwards.
pub open spec fn patch_jump(code: Seq<u8>, labels: Seq<(Seq<char>, usize)>, f: FixupView, back: Op) -> Option<Seq<u8>> {
    match assoc(labels, f.label) {
        None => None,
        Some(t) => if t >= f.at + 2 {
            Some(put16(code, f.at, fwd(t as int, f.at)))
        } else {
            Some(put16(code.update(f.op_pos, op_code(back)), f.at, (f.at + 2 - t) as u16))
        },
    }
}

/// The code with the jumps `fs` resolved in order, or the message for the
/// first of them whose label is not defined.
pub open spec fn patch_jumps(code: Seq<u8>, labels: Seq<(Seq<char>, usize)>, fs: Seq<FixupView>, back: Op) -> Result<Seq<u8>, Seq<char>>
    decreases fs.len(),
{
    if fs.len() == 0 {
        Ok(code)
    } else {
        match patch_jump(code, labels, fs[0], back) {
            None => Err(undefined_label_msg(fs[0].label)),
            Some(c2) => patch_jumps(c2, labels, fs.drop_first(), back),
        }
    }
}

/// The code of a scope once its GOTO jumps and then its GOSUB jumps are
/// resolved, or the message for the first jump to an undefined label.
pub open spec fn resolved_code(code: Seq<u8>, s: LabelScopeView) -> Result<Seq<u8>, Seq<char>> {
    match patch_jumps(code, s.labels, s.gotos, Op::JumpBack) {
        Err(m) => Err(m),
        Ok(c1) => patch_jumps(c1, s.labels, s.gosubs, Op::GosubBack),
    }
}

/// The first label among the jumps `fs` that is not defined.
pub open spec fn first_undefined(labels: Seq<(Seq<char>, usize)>, fs: Seq<FixupView>) -> Option<Seq<char>>
    decreases fs.len(),
{
    if fs.len() == 0 {
        None
    } else if assoc(labels, fs[0].label) is None {
        Some(fs[0].label)
    } else {
        first_undefined(labels, fs.drop_first())
    }
}

/// Every jump lies inside the code.
pub open spec fn jumps_inside(fs: Seq<FixupView>, len: int) -> bool {
    forall|i: int| 0 <= i < fs.len() ==> #[trigger] fs[i].op_pos < len && fs[i].at + 1 < len && 0 <= fs[i].op_pos
        && 0 <= fs[i].at
}

impl LabelScope {
    /// A scope with no labels and no jumps.
    pub fn new() -> (s: LabelScope)
        ensures
            label_scope_view(s).labels == Seq::<(Seq<char>, usize)>::empty(),
            label_scope_view(s).gotos == Seq::<FixupView>::empty(),
            label_scope_view(s).gosubs == Seq::<FixupView>::empty(),
    {
        let s = LabelScope { labels: Vec::new(), gotos: Vec::new(), gosubs: Vec::new() };
        proof {
            assert(label_scope_view(s).labels =~= Seq::<(Seq<char>, usize)>::empty());
            assert(label_scope_view(s).gotos =~= Seq::<FixupView>::empty());
            assert(label_scope_view(s).gosubs =~= Seq::<FixupView>::empty());
        }
        s
    }

    /// Records label `name` at code position `pos`; a label that the scope
    /// already has is refused.
    pub fn define(&mut self, name: &String, pos: usize) -> (r: Result<(), BasilError>)
        ensures
            assoc(label_scope_view(*old(self)).labels, name@) is Some ==> (r matches Err(e) && e.0@
                == duplicate_label_msg(name@) && *final(self) == *old(self)),
            assoc(label_scope_view(*old(self)).labels, name@) is None ==> (r is Ok && label_scope_view(*final(self))
                == (LabelScopeView {
                labels: label_scope_view(*old(self)).labels.push((name@, pos)),
                ..label_scope_view(*old(self))
            })),
    {
        if find_usize(&self.labels, name.as_str()).is_some() {
            let mut m = string_of("Duplicate label: ");
            push_str(&mut m, name.as_str());
            return Err(BasilError(m));
        }
        let ghost before = self.labels@;
        self.labels.push((name.clone(), pos));
        proof {
            assert(pairs_view(self.labels@) =~= pairs_view(before).push((name@, pos)));
        }
        Ok(())
    }

    /// Emits a jump (`Jump` for GOTO, `Gosub` for GOSUB) to `name` with a hole
    /// for its distance, and records it as pending.
    fn emit_pending(&mut self, c: &mut Chunk, o: Op, name: &String, gosub: bool)
        requires
            old(c).code@.len() + 3 <= usize::MAX,
        ensures
            chunk_view(*final(c)) == c_hole(c_op(chunk_view(*old(c)), o)).0,
            ({
                let f = FixupView {
                    op_pos: old(c).code@.len() as int,
                    at: old(c).code@.len() as int + 1,
                    label: name@,
                };
                let v = label_scope_view(*old(self));
                label_scope_view(*final(self)) == if gosub {
                    LabelScopeView { gosubs: v.gosubs.push(f), ..v }
                } else {
                    LabelScopeView { gotos: v.gotos.push(f), ..v }
                }
            }),
    {
        let op_pos = c.here();
        c.push_op(o);
        let at = c.emit_u16_placeholder();
        let f = Fixup { op_pos, at, label: name.clone() };
        let ghost gotos0 = self.gotos@;
        let ghost gosubs0 = self.gosubs@;
        if gosub {
            self.gosubs.push(f);
            proof {
                assert(fixups_view(self.gosubs@) =~= fixups_view(gosubs0).push(fixup_view(f)));
            }
        } else {
            self.gotos.push(f);
            proof {
                assert(fixups_view(self.gotos@) =~= fixups_view(gotos0).push(fixup_view(f)));
            }
        }
        proof {
            assert(chunk_view(*c).code =~= c_hole(c_op(chunk_view(*old(c)), o)).0.code);
        }
    }

    /// GOTO `name`: a `Jump` whose distance is filled in on resolution.
    pub fn emit_goto(&mut self, c: &mut Chunk, name: &String)
        requires
            old(c).code@.len() + 3 <= usize::MAX,
        ensures
            chunk_view(*final(c)) == c_hole(c_op(chunk_view(*old(c)), Op::Jump)).0,
            label_scope_view(*final(self)) == (LabelScopeView {
                gotos: label_scope_view(*old(self)).gotos.push(
                    FixupView { op_pos: old(c).code@.len() as int, at: old(c).code@.len() as int + 1, label: name@ },
                ),
                ..label_scope_view(*old(self))
            }),
    {
        self.emit_pending(c, Op::Jump, name, false);
    }

    /// GOSUB `name`: a `Gosub` whose distance is filled in on resolution.
    pub fn emit_gosub(&mut self, c: &mut Chunk, name: &String)
        requires
            old(c).code@.len() + 3 <= usize::MAX,
        ensures
            chunk_view(*final(c)) == c_hole(c_op(chunk_view(*old(c)), Op::Gosub)).0,
            label_scope_view(*final(self)) == (LabelScopeView {
                gosubs: label_scope_view(*old(self)).gosubs.push(
                    FixupView { op_pos: old(c).code@.len() as int, at: old(c).code@.len() as int + 1, label: name@ },
                ),
                ..label_scope_view(*old(self))
            }),
    {
        self.emit_pending(c, Op::Gosub, name, true);
    }

    /// RETURN from a GOSUB: `GosubRet` back to the caller, or, with a label,
    /// `GosubPop` and a GOTO to that label.
    pub fn emit_return_from_gosub(&mut self, c: &mut Chunk, label: &Option<String>)
        requires
            old(c).code@.len() + 4 <= usize::MAX,
        ensures
            match label {
                None => chunk_view(*final(c)) == c_op(chunk_view(*old(c)), Op::GosubRet) && *final(self)
                    == *old(self),
                Some(l) => chunk_view(*final(c)) == c_hole(
                    c_op(c_op(chunk_view(*old(c)), Op::GosubPop), Op::Jump),
                ).0 && label_scope_view(*final(self)) == (LabelScopeView {
                    gotos: label_scope_view(*old(self)).gotos.push(
                        FixupView { op_pos: old(c).code@.len() as int + 1, at: old(c).code@.len() as int + 2, label: l@ },
                    ),
                    ..label_scope_view(*old(self))
                }),
            },
    {
        match label {
            None => {
                c.push_op(Op::GosubRet);
                proof {
                    assert(chunk_view(*c).code =~= c_op(chunk_view(*old(c)), Op::GosubRet).code);
                }
            },
            Some(l) => {
                c.push_op(Op::GosubPop);
                let ghost mid = chunk_view(*c);
                proof {
                    assert(mid.code =~= c_op(chunk_view(*old(c)), Op::GosubPop).code);
                }
                self.emit_goto(c, l);
            },
        }
    }

    /// Fills in the distance of every pending jump, GOTO jumps first, in the
    /// order they were emitted. A jump to a label that the scope does not have
    /// is refused with "Undefined label: " and its name.
    pub fn resolve(&self, c: &mut Chunk) -> (r: Result<(), BasilError>)
        requires
            jumps_inside(label_scope_view(*self).gotos, old(c).code@.len() as int),
            jumps_inside(label_scope_view(*self).gosubs, old(c).code@.len() as int),
        ensures
            match resolved_code(old(c).code@, label_scope_view(*self)) {
                Ok(code) => r is Ok && final(c).code@ == code && final(c).consts@ == old(c).consts@,
                Err(m) => r matches Err(e) && e.0@ == m,
            },
    {
        let r1 = patch_all(c, &self.labels, &self.gotos, Op::JumpBack);
        match r1 {
            Err(e) => Err(e),
            Ok(()) => patch_all(c, &self.labels, &self.gosubs, Op::GosubBack),
        }
    }
}

/// Appends the marker of source line `line`.
pub fn emit_line(c: &mut Chunk, line: u32)
    ensures
        chunk_view(*final(c)) == c_line(chunk_view(*old(c)), line),
{
    c.push_op(Op::SetLine);
    let n: u16 = if line <= 0xFFFF {
        line as u16
    } else {
        0xFFFF
    };
    c.push_u16(n);
    proof {
        assert(chunk_view(*final(c)).code =~= c_line(chunk_view(*old(c)), line).code);
    }
}

proof fn lemma_patch_keeps_len(code: Seq<u8>, labels: Seq<(Seq<char>, usize)>, f: FixupView, back: Op)
    requires
        0 <= f.op_pos < code.len(),
        0 <= f.at,
        f.at + 1 < code.len(),
    ensures
        patch_jump(code, labels, f, back) matches Some(c2) ==> c2.len() == code.len(),
{
}

fn patch_all(c: &mut Chunk, labels: &Vec<(String, usize)>, fs: &Vec<Fixup>, back: Op) -> (r: Result<(), BasilError>)
    requires
        jumps_inside(fixups_view(fs@), old(c).code@.len() as int),
    ensures
        match patch_jumps(old(c).code@, pairs_view(labels@), fixups_view(fs@), back) {
            Ok(code) => r is Ok && final(c).code@ == code,
            Err(m) => r matches Err(e) && e.0@ == m,
        },
        final(c).consts@ == old(c).consts@,
        final(c).code@.len() == old(c).code@.len(),
{
    let ghost ls = pairs_view(labels@);
    let ghost vs = fixups_view(fs@);
    let ghost whole = patch_jumps(old(c).code@, ls, vs, back);
    let mut i: usize = 0;
    proof {
        assert(vs.skip(0) =~= vs);
    }
    while i < fs.len()
        invariant
            i <= fs.len(),
            ls == pairs_view(labels@),
            vs == fixups_view(fs@),
            vs.len() == fs.len(),
            c.code@.len() == old(c).code@.len(),
            c.consts@ == old(c).consts@,
            jumps_inside(vs, c.code@.len() as int),
            patch_jumps(c.code@, ls, vs.skip(i as int), back) == whole,
            whole == patch_jumps(old(c).code@, ls, vs, back),
        decreases fs.len() - i,
    {
        let f = &fs[i];
        let ghost fv = vs[i as int];
        proof {
            assert(fv == fixup_view(fs@[i as int]));
            assert(vs[i as int].op_pos < c.code@.len());
            assert(f.at + 1 < c.code.len());
            assert(vs.skip(i as int)[0] == fv);
            assert(vs.skip(i as int).drop_first() =~= vs.skip(i as int + 1));
        }
        match find_usize(labels, f.label.as_str()) {
            None => {
                let mut m = string_of("Undefined label: ");
                push_str(&mut m, f.label.as_str());
                return Err(BasilError(m));
            },
            Some(t) => {
                let ghost before = c.code@;
                let end = f.at + 2;
                if t >= end {
                    c.patch_u16_at(f.at, #[verifier::truncate] ((t - end) as u16));
                    proof {
                        assert(c.code@ =~= put16(before, fv.at, fwd(t as int, fv.at)));
                    }
                } else {
                    c.code.set(f.op_pos, back.code());
                    c.patch_u16_at(f.at, #[verifier::truncate] ((end - t) as u16));
                    proof {
                        assert(c.code@ =~= put16(before.update(fv.op_pos, op_code(back)), fv.at, (fv.at + 2 - t) as u16));
                    }
                }
            },
        }
        i += 1;
    }
    proof {
        assert(vs.skip(i as int) =~= Seq::<FixupView>::empty());
    }
    Ok(())
}

proof fn lemma_first_undefined(code: Seq<u8>, labels: Seq<(Seq<char>, usize)>, fs: Seq<FixupView>, back: Op)
    requires
        jumps_inside(fs, code.len() as int),
    ensures
        match first_undefined(labels, fs) {
            Some(l) => patch_jumps(code, labels, fs, back) == Err::<Seq<u8>, Seq<char>>(undefined_label_msg(l)),
            None => patch_jumps(code, labels, fs, back) matches Ok(c2) && c2.len() == code.len(),
        },
    decreases fs.len(),
{
    if fs.len() > 0 {
        assert(fs[0].op_pos < code.len() && fs[0].at + 1 < code.len());
        lemma_patch_keeps_len(code, labels, fs[0], back);
        if let Some(c2) = patch_jump(code, labels, fs[0], back) {
            assert forall|i: int| 0 <= i < fs.drop_first().len() implies #[trigger] fs.drop_first()[i].op_pos
                < c2.len() && fs.drop_first()[i].at + 1 < c2.len() && 0 <= fs.drop_first()[i].op_pos && 0
                <= fs.drop_first()[i].at by {
                assert(fs.drop_first()[i] == fs[i + 1]);
            }
            lemma_first_undefined(c2, labels, fs.drop_first(), back);
        }
    }
}

proof fn lemma_first_undefined_append(labels: Seq<(Seq<char>, usize)>, a: Seq<FixupView>, b: Seq<FixupView>)
    ensures
        first_undefined(labels, a + b) == match first_undefined(labels, a) {
            Some(l) => Some(l),
            None => first_undefined(labels, b),
        },
    decreases a.len(),
{
    if a.len() == 0 {
        assert(a + b =~= b);
    } else {
        assert((a + b)[0] == a[0]);
        assert((a + b).drop_first() =~= a.drop_first() + b);
        lemma_first_undefined_append(labels, a.drop_first(), b);
    }
}

/// Resolving a scope, a function body as much as the top level, fails exactly
/// when one of its jumps names a label that the scope does not have, and the
/// message names the first such label, GOTO jumps before GOSUB jumps;
/// otherwise the code keeps its length.
pub proof fn law_undefined_label_refused(code: Seq<u8>, s: LabelScopeView)
    requires
        jumps_inside(s.gotos, code.len() as int),
        jumps_inside(s.gosubs, code.len() as int),
    ensures
        match first_undefined(s.labels, s.gotos + s.gosubs) {
            Some(l) => resolved_code(code, s) == Err::<Seq<u8>, Seq<char>>(undefined_label_msg(l)),
            None => resolved_code(code, s) matches Ok(c2) && c2.len() == code.len(),
        },
{
    lemma_first_undefined_append(s.labels, s.gotos, s.gosubs);
    lemma_first_undefined(code, s.labels, s.gotos, Op::JumpBack);
    if let Ok(c1) = patch_jumps(code, s.labels, s.gotos, Op::JumpBack) {
        lemma_first_undefined(c1, s.labels, s.gosubs, Op::GosubBack);
    }
}

proof fn lemma_le16_value(n: u16)
    ensures
        le16(n)[0] + 256 * le16(n)[1] == n,
{
    assert(((n & 0xff) as u8) as int + 256 * ((n >> 8) as u8) as int == n as int) by (bit_vector);
}

/// A resolved jump lands on its label: when the label is within 16-bit reach
/// of the end of the operand, the operand holds that distance, forward with the
/// operation left as it was, or backward with the operation turned into `back`.
pub proof fn law_jump_lands_on_label(code: Seq<u8>, labels: Seq<(Seq<char>, usize)>, f: FixupView, back: Op)
    requires
        0 <= f.op_pos < code.len(),
        0 <= f.at,
        f.at + 1 < code.len(),
        f.op_pos != f.at,
        f.op_pos != f.at + 1,
        assoc(labels, f.label) matches Some(t) && -0xFFFF <= t - (f.at + 2) <= 0xFFFF,
    ensures
        patch_jump(code, labels, f, back) matches Some(c2) && ({
            let t = assoc(labels, f.label).unwrap() as int;
            let d = c2[f.at] + 256 * c2[f.at + 1];
            if t >= f.at + 2 {
                t == f.at + 2 + d && c2[f.op_pos] == code[f.op_pos]
            } else {
                t == f.at + 2 - d && c2[f.op_pos] == op_code(back)
            }
        }),
{
    let t = assoc(labels, f.label).unwrap() as int;
    if t >= f.at + 2 {
        let n = fwd(t, f.at);
        assert(n == t - (f.at + 2));
        lemma_le16_value(n);
    } else {
        let n = (f.at + 2 - t) as u16;
        assert(n == f.at + 2 - t);
        lemma_le16_value(n);
    }
}

/// The code of a function body once its jumps are resolved, ending in the
/// implicit `RETURN` of null: a constant null loaded and `Ret`.
pub open spec fn function_tail(code: Seq<u8>, consts: Seq<ValueView>) -> ChunkView {
    c_op(c_load(ChunkView { code, consts }, Op::Const, ValueView::Null), Op::Ret)
}

/// Completes a compiled FUNC or SUB: resolves the jumps of its body, appends
/// the implicit return of null and names it. A jump to a label that the body
/// does not have is refused with "Undefined label: " and its name.
pub fn finish_function(name: String, arity: u8, body: Chunk, scope: &LabelScope) -> (r: Result<Function, BasilError>)
    requires
        jumps_inside(label_scope_view(*scope).gotos, body.code@.len() as int),
        jumps_inside(label_scope_view(*scope).gosubs, body.code@.len() as int),
    ensures
        match resolved_code(body.code@, label_scope_view(*scope)) {
            Ok(code) => r matches Ok(f) && f.arity == arity && opt_str_view(f.name) == Some(name@)
                && chunk_view(f.chunk) == function_tail(code, chunk_view(body).consts),
            Err(m) => r matches Err(e) && e.0@ == m,
        },
{
    let mut c = body;
    match scope.resolve(&mut c) {
        Err(e) => Err(e),
        Ok(()) => {
            e_load(&mut c, Op::Const, ConstValue::Null);
            e_op(&mut c, Op::Ret);
            Ok(Function { arity, name: Some(name), chunk: c })
        },
    }
}

/// Completes the top level of a program: resolves its jumps and appends
/// `Halt`. A jump to a label that the top level does not have is refused with
/// "Undefined label: " and its name.
pub fn finish_program(code: Chunk, globals: Vec<String>, scope: &LabelScope) -> (r: Result<Program, BasilError>)
    requires
        jumps_inside(label_scope_view(*scope).gotos, code.code@.len() as int),
        jumps_inside(label_scope_view(*scope).gosubs, code.code@.len() as int),
    ensures
        match resolved_code(code.code@, label_scope_view(*scope)) {
            Ok(done) => r matches Ok(p) && program_view(p) == (ProgramView {
                chunk: c_op(ChunkView { code: done, consts: chunk_view(code).consts }, Op::Halt),
                globals: strs_view(globals@),
            }),
            Err(m) => r matches Err(e) && e.0@ == m,
        },
{
    let mut c = code;
    match scope.resolve(&mut c) {
        Err(e) => Err(e),
        Ok(()) => {
            e_op(&mut c, Op::Halt);
            Ok(Program { chunk: c, globals })
        },
    }
}

} // verus!
