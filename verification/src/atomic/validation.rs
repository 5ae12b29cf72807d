use vstd::prelude::*;

use crate::atomic::ir::{
    line_of, target_of, AtomicGameProgram, AtomicInstruction, ATOMIC_GAME_IR_FORMAT, ATOMIC_GAME_IR_VERSION,
};
use crate::text::{decimal, push_decimal, push_str, str_eq, string_of};

verus! {

/// A problem found in an atomic game program.
#[derive(Debug, Clone, PartialEq)]
pub struct AtomicValidationError {
    pub message: String,
    pub instruction: Option<usize>,
    pub source_line: Option<u32>,
}

/// What an [`AtomicValidationError`] says, as mathematical values.
pub struct ErrorView {
    pub message: Seq<char>,
    pub instruction: Option<usize>,
    pub source_line: Option<u32>,
}

impl View for AtomicValidationError {
    type V = ErrorView;

    open spec fn view(&self) -> ErrorView {
        ErrorView { message: self.message@, instruction: self.instruction, source_line: self.source_line }
    }
}

pub open spec fn errors_view(v: Seq<AtomicValidationError>) -> Seq<ErrorView> {
    v.map_values(|e: AtomicValidationError| e@)
}

pub open spec fn err(msg: Seq<char>, idx: Option<usize>, line: Option<u32>) -> ErrorView {
    ErrorView { message: msg, instruction: idx, source_line: line }
}

/// `seq![e]` when `cond` holds, the empty sequence otherwise.
pub open spec fn when(cond: bool, e: ErrorView) -> Seq<ErrorView> {
    if cond { seq![e] } else { seq![] }
}

/// The text of a validation error as `Display` shows it.
pub open spec fn display_of(e: ErrorView) -> Seq<char> {
    match (e.instruction, e.source_line) {
        (Some(idx), Some(line)) => "[Instruction "@ + decimal(idx as nat) + ", line "@ + decimal(
            line as nat,
        ) + "] "@ + e.message,
        (Some(idx), None) => "[Instruction "@ + decimal(idx as nat) + "] "@ + e.message,
        (None, Some(line)) => "[Line "@ + decimal(line as nat) + "] "@ + e.message,
        (None, None) => e.message,
    }
}

impl AtomicValidationError {
    /// The error as text, with its instruction and line in front when known.
    pub fn to_display_string(&self) -> (s: String)
        ensures
            s@ == display_of(self@),
    {
        let mut s = String::new();
        match (self.instruction, self.source_line) {
            (Some(idx), Some(line)) => {
                push_str(&mut s, "[Instruction ");
                push_decimal(&mut s, idx as u64);
                push_str(&mut s, ", line ");
                push_decimal(&mut s, line as u64);
                push_str(&mut s, "] ");
            },
            (Some(idx), None) => {
                push_str(&mut s, "[Instruction ");
                push_decimal(&mut s, idx as u64);
                push_str(&mut s, "] ");
            },
            (None, Some(line)) => {
                push_str(&mut s, "[Line ");
                push_decimal(&mut s, line as u64);
                push_str(&mut s, "] ");
            },
            (None, None) => {},
        }
        push_str(&mut s, self.message.as_str());
        s
    }
}

// ---------------------------------------------------------------------
// What the validator reports, stated over the program

/// Errors on the program as a whole.
pub open spec fn header_errors(p: &AtomicGameProgram) -> Seq<ErrorView> {
    when(
        p.format@ != ATOMIC_GAME_IR_FORMAT@,
        err("Invalid format: expected '"@ + ATOMIC_GAME_IR_FORMAT@ + "', got '"@ + p.format@ + "'"@, None, None),
    ) + when(
        p.version != ATOMIC_GAME_IR_VERSION,
        err("Unsupported version: expected "@ + decimal(ATOMIC_GAME_IR_VERSION as nat) + ", got "@ + decimal(p.version as nat), None, None),
    ) + when(p.entry_point@.len() == 0, err("Entry point is empty"@, None, None)) + when(
        p.instructions@.len() == 0,
        err("No instructions found in program"@, None, None),
    )
}

/// Errors that instruction number `idx` has on its own.
pub open spec fn instruction_errors(idx: int, inst: AtomicInstruction) -> Seq<ErrorView> {
    let line = line_of(inst);
    let at = |m: Seq<char>| err(m, Some(idx as usize), Some(line));
    when(line == 0, at("Source line must be greater than zero"@)) + match inst {
        AtomicInstruction::Label { name, .. } => when(name@.len() == 0, at("Label name is empty"@)),
        AtomicInstruction::Choice { text, target, .. } => when(
            text@.len() == 0,
            at("CHOICE text is empty"@),
        ) + when(target@.len() == 0, at("CHOICE target is empty"@)),
        AtomicInstruction::SetVar { variable, .. } => when(
            variable@.len() == 0,
            at("SET variable is empty"@),
        ),
        AtomicInstruction::Add { variable, value, .. } => when(
            variable@.len() == 0,
            at("ADD variable is empty"@),
        ) + when(!(value is Number), at("ADD requires a numeric value"@)),
        AtomicInstruction::IfEq { variable, target, .. } => when(
            variable@.len() == 0,
            at("IF_EQ variable is empty"@),
        ) + when(target@.len() == 0, at("IF_EQ target is empty"@)),
        AtomicInstruction::WaitKey { variable, .. } => match variable {
            Some(v) => when(v@.len() == 0, at("WAITKEY variable is non-empty when present"@)),
            None => seq![],
        },
        _ => seq![],
    }
}

/// The errors of the first `k` instructions, in order.
pub open spec fn instruction_errors_upto(instrs: Seq<AtomicInstruction>, k: nat) -> Seq<ErrorView>
    decreases k,
{
    if k == 0 || k > instrs.len() {
        seq![]
    } else {
        instruction_errors_upto(instrs, (k - 1) as nat) + instruction_errors(k - 1, instrs[k - 1])
    }
}

/// The non-empty label name that instruction `inst` defines, if any.
pub open spec fn label_name(inst: AtomicInstruction) -> Option<Seq<char>> {
    match inst {
        AtomicInstruction::Label { name, .. } => if name@.len() > 0 {
            Some(name@)
        } else {
            None
        },
        _ => None,
    }
}

/// The label names defined by the first `k` instructions.
pub open spec fn labels_upto(instrs: Seq<AtomicInstruction>, k: nat) -> Set<Seq<char>>
    decreases k,
{
    if k == 0 || k > instrs.len() {
        Set::empty()
    } else {
        match label_name(instrs[k - 1]) {
            Some(n) => labels_upto(instrs, (k - 1) as nat).insert(n),
            None => labels_upto(instrs, (k - 1) as nat),
        }
    }
}

/// The label names defined twice or more by the first `k` instructions, each
/// once, in the order in which their second definition comes.
pub open spec fn duplicates_upto(instrs: Seq<AtomicInstruction>, k: nat) -> Seq<Seq<char>>
    decreases k,
{
    if k == 0 || k > instrs.len() {
        seq![]
    } else {
        let d = duplicates_upto(instrs, (k - 1) as nat);
        match label_name(instrs[k - 1]) {
            Some(n) => if labels_upto(instrs, (k - 1) as nat).contains(n) && !d.contains(n) {
                d.push(n)
            } else {
                d
            },
            None => d,
        }
    }
}

pub open spec fn duplicate_error(name: Seq<char>) -> ErrorView {
    err("Duplicate label '"@ + name + "'"@, None, None)
}

pub open spec fn entry_error(p: &AtomicGameProgram) -> Seq<ErrorView> {
    when(
        p.entry_point@.len() > 0 && !labels_upto(p.instructions@, p.instructions@.len()).contains(p.entry_point@),
        err("Entry point '"@ + p.entry_point@ + "' does not exist"@, None, None),
    )
}

pub open spec fn unknown_target_error(idx: int, inst: AtomicInstruction, t: Seq<char>) -> ErrorView {
    err(
        "Instruction "@ + decimal(idx as nat) + " references unknown label '"@ + t + "'"@,
        Some(idx as usize),
        Some(line_of(inst)),
    )
}

/// Errors for the jumps, among the first `k` instructions, to labels not in `labels`.
pub open spec fn jump_errors_upto(instrs: Seq<AtomicInstruction>, labels: Set<Seq<char>>, k: nat) -> Seq<ErrorView>
    decreases k,
{
    if k == 0 || k > instrs.len() {
        seq![]
    } else {
        jump_errors_upto(instrs, labels, (k - 1) as nat) + match target_of(instrs[k - 1]) {
            Some(t) => when(!labels.contains(t), unknown_target_error(k - 1, instrs[k - 1], t)),
            None => seq![],
        }
    }
}

/// Every error that the validator reports on `p`, in the order it reports them.
pub open spec fn program_errors(p: &AtomicGameProgram) -> Seq<ErrorView> {
    let instrs = p.instructions@;
    let n = instrs.len();
    header_errors(p) + instruction_errors_upto(instrs, n) + duplicates_upto(instrs, n).map_values(
        |name: Seq<char>| duplicate_error(name),
    ) + entry_error(p) + jump_errors_upto(instrs, labels_upto(instrs, n), n)
}

// ---------------------------------------------------------------------
// The validator

pub open spec fn names_of(v: Seq<String>) -> Seq<Seq<char>> {
    v.map_values(|s: String| s@)
}

fn contains_name(v: &Vec<String>, s: &str) -> (r: bool)
    ensures
        r == names_of(v@).contains(s@),
{
    let mut i: usize = 0;
    while i < v.len()
        invariant
            i <= v.len(),
            forall|j: int| 0 <= j < i ==> v@[j]@ != s@,
        decreases v.len() - i,
    {
        if str_eq(v[i].as_str(), s) {
            assert(names_of(v@)[i as int] == s@);
            return true;
        }
        i += 1;
    }
    assert forall|j: int| 0 <= j < names_of(v@).len() implies names_of(v@)[j] != s@ by {
        assert(names_of(v@)[j] == v@[j]@);
    }
    false
}

fn push_error(errors: &mut Vec<AtomicValidationError>, message: String, instruction: Option<usize>, source_line: Option<u32>)
    ensures
        errors_view(final(errors)@) == errors_view(old(errors)@).push(err(message@, instruction, source_line)),
{
    let e = AtomicValidationError { message, instruction, source_line };
    errors.push(e);
    assert(errors_view(errors@) =~= errors_view(old(errors)@).push(err(message@, instruction, source_line)));
}

fn push_when(errors: &mut Vec<AtomicValidationError>, cond: bool, message: &str, instruction: Option<usize>, source_line: Option<u32>)
    ensures
        errors_view(final(errors)@) == errors_view(old(errors)@) + when(cond, err(message@, instruction, source_line)),
{
    if cond {
        push_error(errors, string_of(message), instruction, source_line);
        assert(errors_view(old(errors)@).push(err(message@, instruction, source_line)) =~= errors_view(old(errors)@) + when(cond, err(message@, instruction, source_line)));
    } else {
        assert(errors_view(old(errors)@) =~= errors_view(old(errors)@) + when(cond, err(message@, instruction, source_line)));
    }
}

/// The errors that instruction `idx` has on its own, appended to `errors`.
fn check_instruction(errors: &mut Vec<AtomicValidationError>, idx: usize, inst: &AtomicInstruction)
    ensures
        errors_view(final(errors)@) == errors_view(old(errors)@) + instruction_errors(idx as int, *inst),
{
    let ghost e0 = errors_view(errors@);
    let line = inst.source_line();
    let at = Some(idx);
    let ln = Some(line);
    assert(idx as int as usize == idx);
    push_when(errors, line == 0, "Source line must be greater than zero", at, ln);
    let ghost e1 = errors_view(errors@);
    match inst {
        AtomicInstruction::Label { name, .. } => {
            push_when(errors, name.as_str().is_empty(), "Label name is empty", at, ln);
        },
        AtomicInstruction::Choice { text, target, .. } => {
            push_when(errors, text.as_str().is_empty(), "CHOICE text is empty", at, ln);
            push_when(errors, target.as_str().is_empty(), "CHOICE target is empty", at, ln);
        },
        AtomicInstruction::SetVar { variable, .. } => {
            push_when(errors, variable.as_str().is_empty(), "SET variable is empty", at, ln);
        },
        AtomicInstruction::Add { variable, value, .. } => {
            push_when(errors, variable.as_str().is_empty(), "ADD variable is empty", at, ln);
            push_when(errors, !value.is_number(), "ADD requires a numeric value", at, ln);
        },
        AtomicInstruction::IfEq { variable, target, .. } => {
            push_when(errors, variable.as_str().is_empty(), "IF_EQ variable is empty", at, ln);
            push_when(errors, target.as_str().is_empty(), "IF_EQ target is empty", at, ln);
        },
        AtomicInstruction::WaitKey { variable, .. } => {
            match variable {
                Some(v) => {
                    push_when(errors, v.as_str().is_empty(), "WAITKEY variable is non-empty when present", at, ln);
                },
                None => {},
            }
        },
        _ => {},
    }
    assert(errors_view(errors@) =~= errors_view(old(errors)@) + instruction_errors(idx as int, *inst));
}

/// Checks an atomic game program, reporting every problem found.
///
/// The program is accepted exactly when `program_errors` is empty; otherwise the
/// errors are those of `program_errors`, in that order.
pub fn validate_atomic_program(program: &AtomicGameProgram) -> (r: Result<(), Vec<AtomicValidationError>>)
    ensures
        match r {
            Ok(()) => program_errors(program).len() == 0,
            Err(errors) => errors@.len() > 0 && errors_view(errors@) == program_errors(program),
        },
{
    let mut errors: Vec<AtomicValidationError> = Vec::new();
    let ghost instrs = program.instructions@;
    let ghost n = instrs.len();

    // Program-level validation
    let bad_format = !str_eq(program.format.as_str(), ATOMIC_GAME_IR_FORMAT);
    if bad_format {
        let mut m = string_of("Invalid format: expected '");
        push_str(&mut m, ATOMIC_GAME_IR_FORMAT);
        push_str(&mut m, "', got '");
        push_str(&mut m, program.format.as_str());
        push_str(&mut m, "'");
        push_error(&mut errors, m, None, None);
    }
    let bad_version = program.version != ATOMIC_GAME_IR_VERSION;
    if bad_version {
        let mut m = string_of("Unsupported version: expected ");
        push_decimal(&mut m, ATOMIC_GAME_IR_VERSION as u64);
        push_str(&mut m, ", got ");
        push_decimal(&mut m, program.version as u64);
        push_error(&mut errors, m, None, None);
    }
    push_when(&mut errors, program.entry_point.as_str().is_empty(), "Entry point is empty", None, None);
    push_when(&mut errors, program.instructions.len() == 0, "No instructions found in program", None, None);
    assert(errors_view(errors@) =~= header_errors(program));

    // First pass: label collection and per-instruction checks
    let mut labels: Vec<String> = Vec::new();
    let mut duplicates: Vec<String> = Vec::new();
    let mut idx: usize = 0;
    while idx < program.instructions.len()
        invariant
            instrs == program.instructions@,
            n == instrs.len(),
            idx <= n,
            errors_view(errors@) == header_errors(program) + instruction_errors_upto(instrs, idx as nat),
            names_of(labels@).to_set() == labels_upto(instrs, idx as nat),
            names_of(duplicates@) == duplicates_upto(instrs, idx as nat),
        decreases n - idx,
    {
        let inst = &program.instructions[idx];
        check_instruction(&mut errors, idx, inst);
        assert(errors_view(errors@) =~= header_errors(program) + instruction_errors_upto(instrs, (idx + 1) as nat));
        let ghost old_labels = names_of(labels@);
        let ghost old_dups = names_of(duplicates@);
        match inst {
            AtomicInstruction::Label { name, .. } => {
                if !name.as_str().is_empty() {
                    assert(label_name(instrs[idx as int]) == Some(name@));
                    if contains_name(&labels, name.as_str()) {
                        if !contains_name(&duplicates, name.as_str()) {
                            duplicates.push(name.clone());
                            assert(names_of(duplicates@) =~= old_dups.push(name@));
                        }
                    } else {
                        labels.push(name.clone());
                        assert(names_of(labels@) =~= old_labels.push(name@));
                        proof { old_labels.lemma_push_to_set_commute(name@); }
                    }
                } else {
                    assert(label_name(instrs[idx as int]) is None);
                }
            },
            _ => {
                assert(label_name(instrs[idx as int]) is None);
            },
        }
        idx += 1;
    }
    assert(errors_view(errors@) == header_errors(program) + instruction_errors_upto(instrs, n));

    // Duplicate labels, in the order of their second definition
    let ghost before_dups = errors_view(errors@);
    let mut k: usize = 0;
    while k < duplicates.len()
        invariant
            k <= duplicates.len(),
            names_of(duplicates@) == duplicates_upto(instrs, n),
            errors_view(errors@) == before_dups + names_of(duplicates@).take(k as int).map_values(
                |name: Seq<char>| duplicate_error(name),
            ),
        decreases duplicates.len() - k,
    {
        let mut m = string_of("Duplicate label '");
        push_str(&mut m, duplicates[k].as_str());
        push_str(&mut m, "'");
        push_error(&mut errors, m, None, None);
        assert(names_of(duplicates@)[k as int] == duplicates@[k as int]@);
        assert(names_of(duplicates@).take(k + 1).map_values(|name: Seq<char>| duplicate_error(name))
            =~= names_of(duplicates@).take(k as int).map_values(|name: Seq<char>| duplicate_error(name)).push(
            duplicate_error(duplicates@[k as int]@)));
        k += 1;
    }
    assert(names_of(duplicates@).take(k as int) =~= names_of(duplicates@));

    // The entry point must be a label
    let ep = program.entry_point.as_str();
    if !program.entry_point.as_str().is_empty() && !contains_name(&labels, ep) {
        let mut m = string_of("Entry point '");
        push_str(&mut m, ep);
        push_str(&mut m, "' does not exist");
        push_error(&mut errors, m, None, None);
    }
    assert(errors_view(errors@) =~= header_errors(program) + instruction_errors_upto(instrs, n)
        + duplicates_upto(instrs, n).map_values(|name: Seq<char>| duplicate_error(name)) + entry_error(program));

    // Second pass: every jump must reach a label
    let ghost labels_set = labels_upto(instrs, n);
    let ghost before_jumps = errors_view(errors@);
    let mut j: usize = 0;
    while j < program.instructions.len()
        invariant
            instrs == program.instructions@,
            n == instrs.len(),
            j <= n,
            names_of(labels@).to_set() == labels_set,
            errors_view(errors@) == before_jumps + jump_errors_upto(instrs, labels_set, j as nat),
        decreases n - j,
    {
        let inst = &program.instructions[j];
        match inst.jump_target() {
            Some(target) => {
                if !contains_name(&labels, target) {
                    let mut m = string_of("Instruction ");
                    push_decimal(&mut m, j as u64);
                    push_str(&mut m, " references unknown label '");
                    push_str(&mut m, target);
                    push_str(&mut m, "'");
                    push_error(&mut errors, m, Some(j), Some(inst.source_line()));
                    assert(unknown_target_error(j as int, instrs[j as int], target@).instruction == Some(j));
                }
            },
            None => {},
        }
        assert(errors_view(errors@) =~= before_jumps + jump_errors_upto(instrs, labels_set, (j + 1) as nat));
        j += 1;
    }
    assert(errors_view(errors@) =~= program_errors(program));

    if errors.len() == 0 {
        Ok(())
    } else {
        Err(errors)
    }
}


// ---------------------------------------------------------------------
// Which programs the validator accepts

/// An instruction is well formed: a positive source line, and the names and
/// texts that it needs are not empty, an ADD operand is a number.
pub open spec fn instruction_ok(inst: AtomicInstruction) -> bool {
    &&& line_of(inst) > 0
    &&& match inst {
        AtomicInstruction::Label { name, .. } => name@.len() > 0,
        AtomicInstruction::Choice { text, target, .. } => text@.len() > 0 && target@.len() > 0,
        AtomicInstruction::SetVar { variable, .. } => variable@.len() > 0,
        AtomicInstruction::Add { variable, value, .. } => variable@.len() > 0 && value is Number,
        AtomicInstruction::IfEq { variable, target, .. } => variable@.len() > 0 && target@.len() > 0,
        AtomicInstruction::WaitKey { variable, .. } => match variable {
            Some(v) => v@.len() > 0,
            None => true,
        },
        _ => true,
    }
}

/// `name` is defined as a label by some instruction.
pub open spec fn defines_label(instrs: Seq<AtomicInstruction>, name: Seq<char>) -> bool {
    exists|i: int| 0 <= i < instrs.len() && label_name(instrs[i]) == Some(name)
}

/// A well-formed program: the right format and version, an entry point, at least one
/// instruction, every instruction well formed, no label defined twice, the entry point
/// and every jump target defined as labels.
pub open spec fn well_formed(p: &AtomicGameProgram) -> bool {
    let instrs = p.instructions@;
    &&& p.format@ == ATOMIC_GAME_IR_FORMAT@
    &&& p.version == ATOMIC_GAME_IR_VERSION
    &&& p.entry_point@.len() > 0
    &&& instrs.len() > 0
    &&& forall|i: int| 0 <= i < instrs.len() ==> instruction_ok(#[trigger] instrs[i])
    &&& forall|i: int, j: int|
        0 <= i < j < instrs.len() && (#[trigger] label_name(instrs[i])) is Some ==> label_name(instrs[i])
            != #[trigger] label_name(instrs[j])
    &&& defines_label(instrs, p.entry_point@)
    &&& forall|i: int|
        0 <= i < instrs.len() && (#[trigger] target_of(instrs[i])) is Some ==> defines_label(
            instrs,
            target_of(instrs[i])->0,
        )
}

proof fn lemma_instruction_errors_empty(idx: int, inst: AtomicInstruction)
    ensures
        instruction_errors(idx, inst).len() == 0 <==> instruction_ok(inst),
{
}

proof fn lemma_instruction_errors_upto_empty(instrs: Seq<AtomicInstruction>, k: nat)
    requires
        k <= instrs.len(),
    ensures
        instruction_errors_upto(instrs, k).len() == 0 <==> forall|i: int| 0 <= i < k ==> instruction_ok(#[trigger] instrs[i]),
    decreases k,
{
    if k > 0 {
        lemma_instruction_errors_upto_empty(instrs, (k - 1) as nat);
        lemma_instruction_errors_empty(k - 1, instrs[k - 1]);
    }
}

proof fn lemma_labels_upto(instrs: Seq<AtomicInstruction>, k: nat, name: Seq<char>)
    requires
        k <= instrs.len(),
    ensures
        labels_upto(instrs, k).contains(name) <==> exists|i: int| 0 <= i < k && label_name(instrs[i]) == Some(name),
    decreases k,
{
    if k > 0 {
        lemma_labels_upto(instrs, (k - 1) as nat, name);
        if labels_upto(instrs, k).contains(name) {
            if label_name(instrs[k - 1]) != Some(name) {
                let i = choose|i: int| 0 <= i < k - 1 && label_name(instrs[i]) == Some(name);
                assert(0 <= i < k && label_name(instrs[i]) == Some(name));
            }
        }
    }
}

proof fn lemma_duplicates_upto_empty(instrs: Seq<AtomicInstruction>, k: nat)
    requires
        k <= instrs.len(),
    ensures
        duplicates_upto(instrs, k).len() == 0 <==> forall|i: int, j: int|
            0 <= i < j < k && (#[trigger] label_name(instrs[i])) is Some ==> label_name(instrs[i]) != #[trigger] label_name(instrs[j]),
    decreases k,
{
    if k > 0 {
        let k1 = (k - 1) as nat;
        lemma_duplicates_upto_empty(instrs, k1);
        let d = duplicates_upto(instrs, k1);
        if duplicates_upto(instrs, k).len() == 0 {
            assert(d.len() == 0);
            assert forall|i: int, j: int|
                0 <= i < j < k && (#[trigger] label_name(instrs[i])) is Some implies label_name(instrs[i]) != #[trigger] label_name(instrs[j]) by {
                if j == k - 1 && label_name(instrs[i]) == label_name(instrs[j]) {
                    let n = label_name(instrs[i])->0;
                    lemma_labels_upto(instrs, k1, n);
                    assert(labels_upto(instrs, k1).contains(n));
                    assert(!d.contains(n));
                    assert(duplicates_upto(instrs, k) == d.push(n));
                }
            }
        } else {
            if d.len() == 0 {
                let n = label_name(instrs[k - 1])->0;
                assert(label_name(instrs[k - 1]) is Some);
                lemma_labels_upto(instrs, k1, n);
                assert(labels_upto(instrs, k1).contains(n));
                let i = choose|i: int| 0 <= i < k1 && label_name(instrs[i]) == Some(n);
                assert(label_name(instrs[i]) is Some && label_name(instrs[i]) == label_name(instrs[k - 1]));
            }
        }
    }
}

proof fn lemma_jump_errors_upto_empty(instrs: Seq<AtomicInstruction>, labels: Set<Seq<char>>, k: nat)
    requires
        k <= instrs.len(),
    ensures
        jump_errors_upto(instrs, labels, k).len() == 0 <==> forall|i: int|
            0 <= i < k && (#[trigger] target_of(instrs[i])) is Some ==> labels.contains(target_of(instrs[i])->0),
    decreases k,
{
    if k > 0 {
        lemma_jump_errors_upto_empty(instrs, labels, (k - 1) as nat);
    }
}

/// The validator accepts a program exactly when the program is well formed.
pub proof fn law_validation_accepts_exactly_well_formed(p: &AtomicGameProgram)
    ensures
        program_errors(p).len() == 0 <==> well_formed(p),
{
    let instrs = p.instructions@;
    let n = instrs.len();
    let labels = labels_upto(instrs, n);
    lemma_instruction_errors_upto_empty(instrs, n);
    lemma_duplicates_upto_empty(instrs, n);
    lemma_jump_errors_upto_empty(instrs, labels, n);
    lemma_labels_upto(instrs, n, p.entry_point@);
    assert forall|t: Seq<char>| labels.contains(t) <==> defines_label(instrs, t) by {
        lemma_labels_upto(instrs, n, t);
    }
    let dups = duplicates_upto(instrs, n).map_values(|name: Seq<char>| duplicate_error(name));
    assert(dups.len() == duplicates_upto(instrs, n).len());
}

/// A jump (CHOICE, GOTO or IF_EQ) to a label that no LABEL instruction of the
/// program defines is an error of the program, naming the instruction and the
/// label; so the program is refused.
pub proof fn law_jump_to_undefined_label_reported(p: &AtomicGameProgram, i: int, t: Seq<char>)
    requires
        0 <= i < p.instructions@.len(),
        match p.instructions@[i] {
            AtomicInstruction::Choice { target, .. } => target@ == t,
            AtomicInstruction::Goto { target, .. } => target@ == t,
            AtomicInstruction::IfEq { target, .. } => target@ == t,
            _ => false,
        },
        forall|j: int| 0 <= j < p.instructions@.len() ==> !(#[trigger] p.instructions@[j] matches AtomicInstruction::Label { name, .. } && name@ == t),
    ensures
        program_errors(p).contains(unknown_target_error(i, p.instructions@[i], t)),
        program_errors(p).len() > 0,
{
    let instrs = p.instructions@;
    let n = instrs.len();
    let labels = labels_upto(instrs, n);
    lemma_labels_upto(instrs, n, t);
    if labels.contains(t) {
        let j = choose|j: int| 0 <= j < n && label_name(instrs[j]) == Some(t);
        assert(!(instrs[j] matches AtomicInstruction::Label { name, .. } && name@ == t));
    }
    let e = unknown_target_error(i, instrs[i], t);
    assert(target_of(instrs[i]) == Some(t));
    lemma_jump_error_stays(instrs, labels, i, n, e);
    let a = header_errors(p) + instruction_errors_upto(instrs, n) + duplicates_upto(instrs, n).map_values(
        |name: Seq<char>| duplicate_error(name),
    ) + entry_error(p);
    let b = jump_errors_upto(instrs, labels, n);
    assert(program_errors(p) == a + b);
    let k = choose|k: int| 0 <= k < b.len() && b[k] == e;
    assert((a + b)[a.len() + k] == e);
}

proof fn lemma_jump_error_stays(instrs: Seq<AtomicInstruction>, labels: Set<Seq<char>>, i: int, k: nat, e: ErrorView)
    requires
        0 <= i < instrs.len(),
        i < k <= instrs.len(),
        target_of(instrs[i]) matches Some(t) && !labels.contains(t) && e == unknown_target_error(i, instrs[i], t),
    ensures
        jump_errors_upto(instrs, labels, k).contains(e),
    decreases k,
{
    let prev = jump_errors_upto(instrs, labels, (k - 1) as nat);
    let tail = match target_of(instrs[k - 1]) {
        Some(t) => when(!labels.contains(t), unknown_target_error(k - 1, instrs[k - 1], t)),
        None => seq![],
    };
    assert(jump_errors_upto(instrs, labels, k) == prev + tail);
    if k == i + 1 {
        assert(tail == seq![e]);
        assert((prev + tail)[prev.len() as int] == e);
    } else {
        lemma_jump_error_stays(instrs, labels, i, (k - 1) as nat, e);
        let m = choose|m: int| 0 <= m < prev.len() && prev[m] == e;
        assert((prev + tail)[m] == e);
    }
}

} // verus!
