use vstd::prelude::*;

use crate::common::BasilError;
use crate::template::{
    args_scan, at_directive, eq_ignore_case, eq_ignore_case_str, foreach_header, for_header, ident_at,
    lemma_run_len_bound, parse_for_header, parse_foreach_header, peek_word, read_args_until_rparen,
    read_balanced_until, read_ident, run_end, skip_ws, skip_ws_end, split_scan, split_top_level_commas,
    starts_with2, starts_with_at, strings_view, word_at,
};
use crate::text::{
    ascii_upper, chars_of, first_occurrence, lemma_first_occurrence, occurs_at, push_str, str_eq,
    string_from_chars, string_of, trim, trimmed_string, upper_seq,
};

verus! {

// ---------------------------------------------------------------------
// The parsed form of a template

/// The order in which a `@FOREACH` family directive walks its collection.
#[derive(Debug, Clone, Copy, PartialEq, Eq, Structural)]
pub enum ForEachOrder {
    Natural,
    KSortAsc,
    VSortAsc,
    KSortDesc,
    VSortDesc,
}

/// One element of a parsed template. Positions count characters of the template
/// and point at the `@` or `{{` that opens the element.
#[derive(Debug)]
pub enum Node {
    Text(String),
    Interp { expr: String, pos: usize },
    Call { name: String, args: Vec<String>, pos: usize },
    If { cond: String, then_part: Vec<Node>, else_part: Vec<Node>, pos: usize },
    Case { arms: Vec<(String, Vec<Node>)>, pos: usize },
    ForEach {
        var: String,
        enumerable: String,
        body: Vec<Node>,
        else_part: Vec<Node>,
        order: ForEachOrder,
        pos: usize,
    },
    Times { count: String, body: Vec<Node>, pos: usize },
    ForNum {
        var: String,
        start: String,
        end: String,
        step: Option<String>,
        body: Vec<Node>,
        pos: usize,
    },
    While { cond: String, body: Vec<Node>, pos: usize },
    Break { pos: usize },
    Continue { pos: usize },
}

/// The mathematical value of a `Node`: strings as character sequences.
pub enum Tree {
    Text(Seq<char>),
    Interp { expr: Seq<char>, pos: int },
    Call { name: Seq<char>, args: Seq<Seq<char>>, pos: int },
    If { cond: Seq<char>, then_part: Seq<Tree>, else_part: Seq<Tree>, pos: int },
    Case { arms: Seq<(Seq<char>, Seq<Tree>)>, pos: int },
    ForEach {
        var: Seq<char>,
        enumerable: Seq<char>,
        body: Seq<Tree>,
        else_part: Seq<Tree>,
        order: ForEachOrder,
        pos: int,
    },
    Times { count: Seq<char>, body: Seq<Tree>, pos: int },
    ForNum {
        var: Seq<char>,
        start: Seq<char>,
        end: Seq<char>,
        step: Option<Seq<char>>,
        body: Seq<Tree>,
        pos: int,
    },
    While { cond: Seq<char>, body: Seq<Tree>, pos: int },
    Break { pos: int },
    Continue { pos: int },
}

pub open spec fn opt_str_view(o: Option<String>) -> Option<Seq<char>> {
    match o {
        Some(x) => Some(x@),
        None => None,
    }
}

pub open spec fn tree_of(n: Node) -> Tree
    decreases n,
{
    match n {
        Node::Text(t) => Tree::Text(t@),
        Node::Interp { expr, pos } => Tree::Interp { expr: expr@, pos: pos as int },
        Node::Call { name, args, pos } => Tree::Call { name: name@, args: strings_view(args@), pos: pos as int },
        Node::If { cond, then_part, else_part, pos } => Tree::If {
            cond: cond@,
            then_part: trees_of(then_part@),
            else_part: trees_of(else_part@),
            pos: pos as int,
        },
        Node::Case { arms, pos } => Tree::Case { arms: arms_of(arms@), pos: pos as int },
        Node::ForEach { var, enumerable, body, else_part, order, pos } => Tree::ForEach {
            var: var@,
            enumerable: enumerable@,
            body: trees_of(body@),
            else_part: trees_of(else_part@),
            order,
            pos: pos as int,
        },
        Node::Times { count, body, pos } => Tree::Times { count: count@, body: trees_of(body@), pos: pos as int },
        Node::ForNum { var, start, end, step, body, pos } => Tree::ForNum {
            var: var@,
            start: start@,
            end: end@,
            step: opt_str_view(step),
            body: trees_of(body@),
            pos: pos as int,
        },
        Node::While { cond, body, pos } => Tree::While { cond: cond@, body: trees_of(body@), pos: pos as int },
        Node::Break { pos } => Tree::Break { pos: pos as int },
        Node::Continue { pos } => Tree::Continue { pos: pos as int },
    }
}

pub open spec fn trees_of(s: Seq<Node>) -> Seq<Tree>
    decreases s,
{
    if s.len() == 0 {
        seq![]
    } else {
        trees_of(s.drop_last()).push(tree_of(s.last()))
    }
}

pub open spec fn arms_of(s: Seq<(String, Vec<Node>)>) -> Seq<(Seq<char>, Seq<Tree>)>
    decreases s,
{
    if s.len() == 0 {
        seq![]
    } else {
        arms_of(s.drop_last()).push((s.last().0@, trees_of(s.last().1@)))
    }
}

// ---------------------------------------------------------------------
// The grammar: a template is text, `{{ expr }}` interpolations and `@NAME(...)`
// directives, some of which open blocks that a closing directive ends.

/// What a parse step gives: a value and the position after it, or an error message.
pub open spec fn then_prefix(pre: Seq<Tree>, r: Result<(Seq<Tree>, int), Seq<char>>) -> Result<
    (Seq<Tree>, int),
    Seq<char>,
> {
    match r {
        Ok((ns, k)) => Ok((pre + ns, k)),
        Err(e) => Err(e),
    }
}

/// `ns` with the text `t` in front, joined to a leading text element.
pub open spec fn with_text(t: Seq<char>, ns: Seq<Tree>) -> Seq<Tree> {
    if t.len() == 0 {
        ns
    } else if ns.len() > 0 && ns[0] is Text {
        seq![Tree::Text(t + ns[0]->0)] + ns.drop_first()
    } else {
        seq![Tree::Text(t)] + ns
    }
}

/// The directive words that only close a block.
pub open spec fn is_block_closer(u: Seq<char>) -> bool {
    ||| u == "ELSE"@
    ||| u == "ENDIF"@
    ||| u == "ENDCASE"@
    ||| u == "FORELSE"@
    ||| u == "ENDFOREACH"@
    ||| u == "ENDTIMES"@
    ||| u == "ENDFOR"@
    ||| u == "ENDWHILE"@
}

/// At `i` stands `@` and a word that, upper-cased, equals one of `ends` up to case.
pub open spec fn ends_here(s: Seq<char>, i: int, ends: Seq<Seq<char>>) -> bool {
    &&& 0 <= i < s.len()
    &&& s[i] == '@'
    &&& word_at(s, i + 1) matches Some(w)
    &&& exists|k: int| 0 <= k < ends.len() && eq_ignore_case(ends[k], upper_seq(w))
}

pub open spec fn or_empty(o: Option<Seq<char>>) -> Seq<char> {
    match o {
        Some(w) => w,
        None => seq![],
    }
}

pub open spec fn unclosed_paren() -> Seq<char> {
    "RENDER$: unclosed ')'"@
}

/// The elements from `i` up to the end of the text or to a directive that closes the
/// block (one of `ends`), and the position where they stop.
///
/// Positions only move forward (`law_parse_moves_forward`), so the branches that
/// test this are never taken.
pub open spec fn block(s: Seq<char>, i: int, ends: Seq<Seq<char>>) -> Result<(Seq<Tree>, int), Seq<char>>
    decreases s.len() - i, 3int,
{
    if i < 0 || i >= s.len() || ends_here(s, i, ends) {
        Ok((seq![], i))
    } else if at_directive(s, i) {
        match directive(s, i) {
            Ok((n, j)) => if i < j <= s.len() {
                then_prefix(seq![n], block(s, j, ends))
            } else {
                Err(seq![])
            },
            Err(e) => Err(e),
        }
    } else if occurs_at(s, "{{"@, i) {
        proof {
            reveal_strlit("{{");
            reveal_strlit("}}");
            lemma_first_occurrence(s, "}}"@, i + 2);
        }
        match first_occurrence(s, "}}"@, i + 2) {
            Some(p) => then_prefix(
                seq![Tree::Interp { expr: trim(s.subrange(i + 2, p)), pos: i }],
                block(s, p + 2, ends),
            ),
            None => Err("RENDER$: expected '"@ + "}}"@ + "' to close"@),
        }
    } else {
        match block(s, i + 1, ends) {
            Ok((ns, k)) => Ok((with_text(seq![s[i]], ns), k)),
            Err(e) => Err(e),
        }
    }
}

/// The directive that starts at `i` (an `@` and a letter or `_`), and where it ends.
pub open spec fn directive(s: Seq<char>, i: int) -> Result<(Tree, int), Seq<char>>
    decreases s.len() - i, 2int,
{
    if i < 0 || i >= s.len() {
        Err(seq![])
    } else {
        let (name, p) = ident_at(s, i + 1);
        let q = skip_ws_end(s, p);
        proof {
            lemma_ident_at_bounds(s, i + 1);
            lemma_run_end_bounds(s, p, crate::template::white_pred());
        }
        match name {
            None => Err("RENDER$: expected directive name"@),
            Some(name) => {
                let u = upper_seq(name);
                if is_block_closer(u) {
                    Err("RENDER$: unexpected block control token"@)
                } else if u == "BREAK"@ || u == "CONTINUE"@ {
                    let n = if u == "BREAK"@ {
                        Tree::Break { pos: i }
                    } else {
                        Tree::Continue { pos: i }
                    };
                    if occurs_at(s, "("@, q) {
                        match args_scan(s, q + 1, 1) {
                            Some((e, _)) => Ok((n, e)),
                            None => Err(unclosed_paren()),
                        }
                    } else {
                        Ok((n, q))
                    }
                } else if !occurs_at(s, "("@, q) {
                    Err("RENDER$: expected '(' after @"@ + name)
                } else {
                    proof {
                        lemma_args_scan_bounds(s, q + 1, 1);
                    }
                    match args_scan(s, q + 1, 1) {
                        None => Err(unclosed_paren()),
                        Some((a, src)) => directive_body(s, i, u, src, a),
                    }
                }
            },
        }
    }
}

/// A directive named `u` (upper case) at `i` whose argument text `src` ends at `a`.
pub open spec fn directive_body(s: Seq<char>, i: int, u: Seq<char>, src: Seq<char>, a: int) -> Result<
    (Tree, int),
    Seq<char>,
>
    decreases s.len() - a, 6int,
{
    let args = split_scan(src, 0, 0, seq![]);
    let first = if args.len() > 0 { args[0] } else { seq![] };
    if u == "IF"@ {
        if_directive(s, i, first, a)
    } else if u == "CASE"@ {
        case_directive(s, i, first, a)
    } else if u == "FOREACH"@ || u == "FOREACH_KSORT"@ || u == "FOREACH_VSORT"@ || u == "FOREACH_KSORT_DESC"@
        || u == "FOREACH_DSORT_DESC"@ {
        match foreach_header(src) {
            Err(e) => Err(e),
            Ok((var, expr)) => foreach_directive(s, i, foreach_order(u), var, expr, a),
        }
    } else {
        loop_or_call(s, i, u, src, a)
    }
}

/// A `@CASE` at `i` whose first condition is `first`, its arguments ending at `a`.
pub open spec fn case_directive(s: Seq<char>, i: int, first: Seq<char>, a: int) -> Result<(Tree, int), Seq<char>>
    decreases s.len() - a, 5int,
{
    match block(s, a, seq!["CASE"@, "ENDCASE"@]) {
        Err(e) => Err(e),
        Ok((body, j)) => if a <= j <= s.len() {
            match case_arms(s, j) {
                Ok((arms, k)) => Ok((Tree::Case { arms: seq![(first, body)] + arms, pos: i }, k)),
                Err(e) => Err(e),
            }
        } else {
            Err(seq![])
        },
    }
}

/// `@TIMES`, `@FOR` and `@WHILE` blocks, and the directives that are calls.
pub open spec fn loop_or_call(s: Seq<char>, i: int, u: Seq<char>, src: Seq<char>, a: int) -> Result<
    (Tree, int),
    Seq<char>,
>
    decreases s.len() - a, 5int,
{
    let args = split_scan(src, 0, 0, seq![]);
    let first_or_all = if args.len() > 0 { args[0] } else { trim(src) };
    if u == "TIMES"@ {
        match closed_body(s, a, "ENDTIMES"@, "RENDER$: expected @ENDTIMES"@) {
            Ok((body, k)) => Ok((Tree::Times { count: first_or_all, body, pos: i }, k)),
            Err(e) => Err(e),
        }
    } else if u == "FOR"@ {
        match for_header(src) {
            Err(e) => Err(e),
            Ok((var, start, end, step)) => match closed_body(s, a, "ENDFOR"@, "RENDER$: expected @ENDFOR"@) {
                Ok((body, k)) => Ok((Tree::ForNum { var, start, end, step, body, pos: i }, k)),
                Err(e) => Err(e),
            },
        }
    } else if u == "WHILE"@ {
        match closed_body(s, a, "ENDWHILE"@, "RENDER$: expected @ENDWHILE"@) {
            Ok((body, k)) => Ok((Tree::While { cond: first_or_all, body, pos: i }, k)),
            Err(e) => Err(e),
        }
    } else {
        Ok((Tree::Call { name: u, args, pos: i }, a))
    }
}

pub open spec fn foreach_order(u: Seq<char>) -> ForEachOrder {
    if u == "FOREACH_KSORT"@ {
        ForEachOrder::KSortAsc
    } else if u == "FOREACH_VSORT"@ {
        ForEachOrder::VSortAsc
    } else if u == "FOREACH_KSORT_DESC"@ {
        ForEachOrder::KSortDesc
    } else if u == "FOREACH_DSORT_DESC"@ {
        ForEachOrder::VSortDesc
    } else {
        ForEachOrder::Natural
    }
}

/// The closing directive at `j`, upper-cased, and where its name ends; `None` when no
/// directive stands at `j`.
pub open spec fn closer_at(s: Seq<char>, j: int) -> Option<(Seq<char>, int)> {
    if at_directive(s, j) {
        let (w, e) = ident_at(s, j + 1);
        Some((upper_seq(or_empty(w)), e))
    } else {
        None
    }
}

/// A block from `a` that a directive `end` closes; `missing` when the text ends first.
pub open spec fn closed_body(s: Seq<char>, a: int, end: Seq<char>, missing: Seq<char>) -> Result<
    (Seq<Tree>, int),
    Seq<char>,
>
    decreases s.len() - a, 4int,
{
    match block(s, a, seq![end]) {
        Err(e) => Err(e),
        Ok((body, j)) => match closer_at(s, j) {
            Some((_, k)) => Ok((body, k)),
            None => Err(missing),
        },
    }
}

pub open spec fn if_directive(s: Seq<char>, i: int, cond: Seq<char>, a: int) -> Result<(Tree, int), Seq<char>>
    decreases s.len() - a, 5int,
{
    match block(s, a, seq!["ELSE"@, "ENDIF"@]) {
        Err(e) => Err(e),
        Ok((then_part, j)) => match closer_at(s, j) {
            None => Err("RENDER$: expected @ELSE or @ENDIF"@),
            Some((t, j2)) => if t == "ELSE"@ {
                proof {
                    lemma_closer_at_bounds(s, j);
                }
                if a <= j {
                    match closed_body(s, j2, "ENDIF"@, "RENDER$: expected @ENDIF"@) {
                        Ok((else_part, k)) => Ok((Tree::If { cond, then_part, else_part, pos: i }, k)),
                        Err(e) => Err(e),
                    }
                } else {
                    Err(seq![])
                }
            } else if t == "ENDIF"@ {
                Ok((Tree::If { cond, then_part, else_part: seq![], pos: i }, j2))
            } else {
                Err("RENDER$: expected @ELSE or @ENDIF"@)
            },
        },
    }
}

pub open spec fn foreach_directive(
    s: Seq<char>,
    i: int,
    order: ForEachOrder,
    var: Seq<char>,
    expr: Seq<char>,
    a: int,
) -> Result<(Tree, int), Seq<char>>
    decreases s.len() - a, 5int,
{
    match block(s, a, seq!["FORELSE"@, "ENDFOREACH"@]) {
        Err(e) => Err(e),
        Ok((body, j)) => match closer_at(s, j) {
            None => Err("RENDER$: expected @FORELSE or @ENDFOREACH"@),
            Some((t, j2)) => if t == "FORELSE"@ {
                proof {
                    lemma_closer_at_bounds(s, j);
                }
                if a <= j {
                    match closed_body(s, j2, "ENDFOREACH"@, "RENDER$: expected @ENDFOREACH"@) {
                        Ok((else_part, k)) => Ok(
                            (Tree::ForEach { var, enumerable: expr, body, else_part, order, pos: i }, k),
                        ),
                        Err(e) => Err(e),
                    }
                } else {
                    Err(seq![])
                }
            } else if t == "ENDFOREACH"@ {
                Ok((Tree::ForEach { var, enumerable: expr, body, else_part: seq![], order, pos: i }, j2))
            } else {
                Err("RENDER$: expected @FORELSE or @ENDFOREACH"@)
            },
        },
    }
}

/// The further arms of a `@CASE` from `j`, where the previous arm's body stopped, up to
/// its `@ENDCASE`.
pub open spec fn case_arms(s: Seq<char>, j: int) -> Result<(Seq<(Seq<char>, Seq<Tree>)>, int), Seq<char>>
    decreases s.len() - j, 4int,
{
    match closer_at(s, j) {
        None => Err("RENDER$: expected @CASE or @ENDCASE"@),
        Some((t, j2)) => if t == "ENDCASE"@ {
            Ok((seq![], j2))
        } else if t != "CASE"@ {
            Err("RENDER$: expected @CASE or @ENDCASE"@)
        } else {
            let q = skip_ws_end(s, j2);
            if !occurs_at(s, "("@, q) {
                Err("RENDER$: expected '(' in @CASE"@)
            } else {
                proof {
                    lemma_closer_at_bounds(s, j);
                    lemma_run_end_bounds(s, j2, crate::template::white_pred());
                    lemma_args_scan_bounds(s, q + 1, 1);
                }
                match args_scan(s, q + 1, 1) {
                    None => Err(unclosed_paren()),
                    Some((c, src)) => {
                        let args = split_scan(src, 0, 0, seq![]);
                        let cond = if args.len() > 0 { args[0] } else { seq![] };
                        match block(s, c, seq!["CASE"@, "ENDCASE"@]) {
                            Err(e) => Err(e),
                            Ok((body, k)) => if c <= k <= s.len() {
                                match case_arms(s, k) {
                                    Ok((arms, e)) => Ok((seq![(cond, body)] + arms, e)),
                                    Err(e) => Err(e),
                                }
                            } else {
                                Err(seq![])
                            },
                        }
                    },
                }
            }
        },
    }
}

/// The parsed form of a whole template.
pub open spec fn template_trees(s: Seq<char>) -> Result<Seq<Tree>, Seq<char>> {
    match block(s, 0, seq![]) {
        Ok((ns, _)) => Ok(ns),
        Err(e) => Err(e),
    }
}

// ---------------------------------------------------------------------
// The parser

pub open spec fn tokens_view(t: Seq<&str>) -> Seq<Seq<char>> {
    t.map_values(|x: &str| x@)
}

/// The elements `pre` already read, the text `buf` read since, then what follows.
pub open spec fn combine(pre: Seq<Tree>, buf: Seq<char>, r: Result<(Seq<Tree>, int), Seq<char>>) -> Result<
    (Seq<Tree>, int),
    Seq<char>,
> {
    match r {
        Ok((ns, k)) => Ok((pre + with_text(buf, ns), k)),
        Err(e) => Err(e),
    }
}

proof fn lemma_with_text_push(buf: Seq<char>, c: char, ns: Seq<Tree>)
    ensures
        with_text(buf, with_text(seq![c], ns)) == with_text(buf.push(c), ns),
{
    let inner = with_text(seq![c], ns);
    assert(inner[0] is Text);
    if buf.len() == 0 {
        assert(buf.push(c) =~= seq![c]);
    } else if ns.len() > 0 && ns[0] is Text {
        assert(buf + (seq![c] + ns[0]->0) =~= buf.push(c) + ns[0]->0);
        assert(inner.drop_first() =~= ns.drop_first());
    } else {
        assert(buf + seq![c] =~= buf.push(c));
        assert(inner.drop_first() =~= ns);
    }
}

proof fn lemma_with_text_flush(pre: Seq<Tree>, buf: Seq<char>, n: Tree, ns: Seq<Tree>)
    requires
        !(n is Text),
    ensures
        pre + with_text(buf, seq![n] + ns) == (if buf.len() > 0 {
            pre.push(Tree::Text(buf))
        } else {
            pre
        }).push(n) + with_text(seq![], ns),
{
    assert((seq![n] + ns)[0] == n);
    if buf.len() > 0 {
        assert(pre + (seq![Tree::Text(buf)] + (seq![n] + ns)) =~= pre.push(Tree::Text(buf)).push(n) + ns);
    } else {
        assert(pre + (seq![n] + ns) =~= pre.push(n) + ns);
    }
}

pub(crate) proof fn lemma_trees_of_push(v: Seq<Node>, n: Node)
    ensures
        trees_of(v.push(n)) == trees_of(v).push(tree_of(n)),
{
    assert(v.push(n).drop_last() =~= v);
}

pub(crate) proof fn lemma_arms_of_push(v: Seq<(String, Vec<Node>)>, a: (String, Vec<Node>))
    ensures
        arms_of(v.push(a)) == arms_of(v).push((a.0@, trees_of(a.1@))),
{
    assert(v.push(a).drop_last() =~= v);
}

fn trim_string(x: &str) -> (r: String)
    ensures
        r@ == trim(x@),
{
    let v = chars_of(x);
    assert(v@.subrange(0, v@.len() as int) =~= v@);
    trimmed_string(&v, 0, v.len())
}

/// Whether a directive at `i` closes the current block: its word, upper-cased, is one
/// of `end_tokens` up to case.
fn at_block_end(s: &Vec<char>, i: usize, end_tokens: &[&str]) -> (r: bool)
    requires
        i < s.len(),
    ensures
        r == ends_here(s@, i as int, tokens_view(end_tokens@)),
{
    if s[i] != '@' {
        return false;
    }
    match peek_word(s, i + 1) {
        None => false,
        Some(tok) => {
            let upper = ascii_upper(tok.as_str());
            let ghost ends = tokens_view(end_tokens@);
            let mut k: usize = 0;
            while k < end_tokens.len()
                invariant
                    k <= end_tokens@.len(),
                    i < s.len(),
                    s@[i as int] == '@',
                    word_at(s@, i + 1) == Some(tok@),
                    ends == tokens_view(end_tokens@),
                    upper@ == upper_seq(tok@),
                    forall|m: int| 0 <= m < k ==> !eq_ignore_case(ends[m], upper@),
                decreases end_tokens.len() - k,
            {
                assert(ends[k as int] == end_tokens@[k as int]@);
                if eq_ignore_case_str(end_tokens[k], upper.as_str()) {
                    assert(ends[k as int] == end_tokens@[k as int]@);
                    assert(eq_ignore_case(ends[k as int], upper_seq(tok@)));
                    return true;
                }
                k += 1;
            }
            false
        },
    }
}

/// Parses the elements from `i` up to the end of the text or to a directive named by
/// one of `end_tokens`, which is left for the caller.
fn parse_block(s: &Vec<char>, i: &mut usize, end_tokens: &[&str]) -> (r: Result<Vec<Node>, BasilError>)
    requires
        *old(i) <= s.len(),
    ensures
        match block(s@, *old(i) as int, tokens_view(end_tokens@)) {
            Ok((ns, k)) => r matches Ok(v) && trees_of(v@) == ns && *final(i) == k,
            Err(e) => r matches Err(x) && x.0@ == e,
        },
        r is Ok ==> *old(i) <= *final(i) <= s.len(),
    decreases s.len() - *old(i), 3int,
{
    let ghost i0 = *i as int;
    let ghost ends = tokens_view(end_tokens@);
    let mut out: Vec<Node> = Vec::new();
    let mut buf: Vec<char> = Vec::new();
    while *i < s.len() && !at_block_end(s, *i, end_tokens)
        invariant
            i0 <= *i <= s.len(),
            i0 == *old(i),
            ends == tokens_view(end_tokens@),
            block(s@, i0, ends) == combine(trees_of(out@), buf@, block(s@, *i as int, ends)),
        decreases s.len() - *i,
    {
        let ghost cur = *i as int;
        if starts_with_at(s, *i) {
            let node = match parse_at_directive(s, i) {
                Ok(n) => n,
                Err(e) => {
                    return Err(e);
                },
            };
            proof {
                if let Ok((ns, k)) = block(s@, *i as int, ends) {
                    lemma_with_text_flush(trees_of(out@), buf@, tree_of(node), ns);
                }
            }
            if buf.len() > 0 {
                let t = string_from_chars(&buf);
                proof {
                    lemma_trees_of_push(out@, Node::Text(t));
                }
                out.push(Node::Text(t));
                buf = Vec::new();
            }
            proof {
                lemma_trees_of_push(out@, node);
            }
            out.push(node);
            assert(buf@ == Seq::<char>::empty());
        } else if starts_with2(s, *i, "{{") {
            proof {
                reveal_strlit("{{");
                reveal_strlit("}}");
                lemma_first_occurrence(s@, "}}"@, *i + 2);
            }
            let start = *i;
            *i = *i + 2;
            let x = match read_balanced_until(s, i, "}}") {
                Ok(x) => x,
                Err(e) => {
                    return Err(e);
                },
            };
            let node = Node::Interp { expr: trim_string(x.as_str()), pos: start };
            proof {
                if let Ok((ns, k)) = block(s@, *i as int, ends) {
                    lemma_with_text_flush(trees_of(out@), buf@, tree_of(node), ns);
                }
            }
            if buf.len() > 0 {
                let t = string_from_chars(&buf);
                proof {
                    lemma_trees_of_push(out@, Node::Text(t));
                }
                out.push(Node::Text(t));
                buf = Vec::new();
            }
            proof {
                lemma_trees_of_push(out@, node);
            }
            out.push(node);
            assert(buf@ == Seq::<char>::empty());
        } else {
            let c = s[*i];
            proof {
                if let Ok((ns, k)) = block(s@, cur + 1, ends) {
                    lemma_with_text_push(buf@, c, ns);
                }
            }
            buf.push(c);
            *i = *i + 1;
        }
    }
    if buf.len() > 0 {
        let t = string_from_chars(&buf);
        proof {
            lemma_trees_of_push(out@, Node::Text(t));
        }
        out.push(Node::Text(t));
    }
    Ok(out)
}

/// Reads the closing directive at `i`, upper-cased, and moves past its name.
fn read_closer(s: &Vec<char>, i: &mut usize) -> (r: Option<String>)
    requires
        *old(i) <= s.len(),
    ensures
        match closer_at(s@, *old(i) as int) {
            Some((t, e)) => r matches Some(x) && x@ == t && *final(i) == e,
            None => r is None,
        },
        *final(i) <= s.len(),
{
    if !starts_with_at(s, *i) {
        return None;
    }
    *i = *i + 1;
    let tok = match read_ident(s, i) {
        Some(t) => t,
        None => String::new(),
    };
    Some(ascii_upper(tok.as_str()))
}

fn message(head: &str, tail: &str) -> (e: BasilError)
    ensures
        e.0@ == head@ + tail@,
{
    let mut m = string_of(head);
    push_str(&mut m, tail);
    BasilError(m)
}

/// Parses a block that a directive `end` closes, and moves past that directive's name.
fn parse_closed_body(s: &Vec<char>, i: &mut usize, end: &str, missing: &str) -> (r: Result<Vec<Node>, BasilError>)
    requires
        *old(i) <= s.len(),
    ensures
        match closed_body(s@, *old(i) as int, end@, missing@) {
            Ok((ns, k)) => r matches Ok(v) && trees_of(v@) == ns && *final(i) == k,
            Err(e) => r matches Err(x) && x.0@ == e,
        },
        r is Ok ==> *old(i) < *final(i) <= s.len(),
    decreases s.len() - *old(i), 4int,
{
    let ends = [end];
    assert(tokens_view(ends@) =~= seq![end@]);
    let body = match parse_block(s, i, &ends) {
        Ok(b) => b,
        Err(e) => {
            return Err(e);
        },
    };
    proof {
        lemma_closer_at_bounds(s@, *i as int);
    }
    match read_closer(s, i) {
        Some(_) => Ok(body),
        None => Err(BasilError(string_of(missing))),
    }
}

fn parse_if(s: &Vec<char>, i: &mut usize, start: usize, cond: String) -> (r: Result<Node, BasilError>)
    requires
        *old(i) <= s.len(),
    ensures
        match if_directive(s@, start as int, cond@, *old(i) as int) {
            Ok((n, k)) => r matches Ok(x) && tree_of(x) == n && *final(i) == k,
            Err(e) => r matches Err(x) && x.0@ == e,
        },
        r matches Ok(x) ==> !(x is Text) && *old(i) < *final(i) <= s.len(),
    decreases s.len() - *old(i), 5int,
{
    let ghost a = *i as int;
    let ends = ["ELSE", "ENDIF"];
    assert(tokens_view(ends@) =~= seq!["ELSE"@, "ENDIF"@]);
    let then_part = match parse_block(s, i, &ends) {
        Ok(b) => b,
        Err(e) => {
            return Err(e);
        },
    };
    proof {
        lemma_closer_at_bounds(s@, *i as int);
    }
    let tok = match read_closer(s, i) {
        Some(t) => t,
        None => {
            return Err(BasilError(string_of("RENDER$: expected @ELSE or @ENDIF")));
        },
    };
    if str_eq(tok.as_str(), "ELSE") {
        let else_part = match parse_closed_body(s, i, "ENDIF", "RENDER$: expected @ENDIF") {
            Ok(b) => b,
            Err(e) => {
                return Err(e);
            },
        };
        Ok(Node::If { cond, then_part, else_part, pos: start })
    } else if str_eq(tok.as_str(), "ENDIF") {
        Ok(Node::If { cond, then_part, else_part: Vec::new(), pos: start })
    } else {
        Err(BasilError(string_of("RENDER$: expected @ELSE or @ENDIF")))
    }
}

fn parse_foreach(
    s: &Vec<char>,
    i: &mut usize,
    start: usize,
    order: ForEachOrder,
    var: String,
    expr: String,
) -> (r: Result<Node, BasilError>)
    requires
        *old(i) <= s.len(),
    ensures
        match foreach_directive(s@, start as int, order, var@, expr@, *old(i) as int) {
            Ok((n, k)) => r matches Ok(x) && tree_of(x) == n && *final(i) == k,
            Err(e) => r matches Err(x) && x.0@ == e,
        },
        r matches Ok(x) ==> !(x is Text) && *old(i) < *final(i) <= s.len(),
    decreases s.len() - *old(i), 5int,
{
    let ends = ["FORELSE", "ENDFOREACH"];
    assert(tokens_view(ends@) =~= seq!["FORELSE"@, "ENDFOREACH"@]);
    let body = match parse_block(s, i, &ends) {
        Ok(b) => b,
        Err(e) => {
            return Err(e);
        },
    };
    proof {
        lemma_closer_at_bounds(s@, *i as int);
    }
    let tok = match read_closer(s, i) {
        Some(t) => t,
        None => {
            return Err(BasilError(string_of("RENDER$: expected @FORELSE or @ENDFOREACH")));
        },
    };
    if str_eq(tok.as_str(), "FORELSE") {
        let else_part = match parse_closed_body(s, i, "ENDFOREACH", "RENDER$: expected @ENDFOREACH") {
            Ok(b) => b,
            Err(e) => {
                return Err(e);
            },
        };
        Ok(Node::ForEach { var, enumerable: expr, body, else_part, order, pos: start })
    } else if str_eq(tok.as_str(), "ENDFOREACH") {
        Ok(Node::ForEach { var, enumerable: expr, body, else_part: Vec::new(), order, pos: start })
    } else {
        Err(BasilError(string_of("RENDER$: expected @FORELSE or @ENDFOREACH")))
    }
}

pub open spec fn arm_trees(v: Seq<(String, Vec<Node>)>) -> Seq<(Seq<char>, Seq<Tree>)> {
    arms_of(v)
}

/// Parses the arms of a `@CASE` after its first one, through its `@ENDCASE`.
fn parse_case_arms(s: &Vec<char>, i: &mut usize, arms: &mut Vec<(String, Vec<Node>)>) -> (r: Result<
    (),
    BasilError,
>)
    requires
        *old(i) <= s.len(),
    ensures
        match case_arms(s@, *old(i) as int) {
            Ok((more, k)) => r is Ok && arms_of(final(arms)@) == arms_of(old(arms)@) + more && *final(i) == k,
            Err(e) => r matches Err(x) && x.0@ == e,
        },
        r is Ok ==> *old(i) < *final(i) <= s.len(),
    decreases s.len() - *old(i), 4int,
{
    proof {
        lemma_closer_at_bounds(s@, *i as int);
    }
    let ghost j = *i as int;
    let tok = match read_closer(s, i) {
        Some(t) => t,
        None => {
            return Err(BasilError(string_of("RENDER$: expected @CASE or @ENDCASE")));
        },
    };
    if str_eq(tok.as_str(), "ENDCASE") {
        assert(arms_of(arms@) + seq![] =~= arms_of(arms@));
        return Ok(());
    }
    if !str_eq(tok.as_str(), "CASE") {
        return Err(BasilError(string_of("RENDER$: expected @CASE or @ENDCASE")));
    }
    skip_ws(s, i);
    if !starts_with2(s, *i, "(") {
        return Err(BasilError(string_of("RENDER$: expected '(' in @CASE")));
    }
    proof {
        reveal_strlit("(");
        lemma_args_scan_bounds(s@, *i + 1, 1);
    }
    *i = *i + 1;
    let cond_src = match read_args_until_rparen(s, i) {
        Ok(a) => a,
        Err(e) => {
            return Err(e);
        },
    };
    let parts = split_top_level_commas(cond_src.as_str());
    let cond = if parts.len() > 0 {
        parts[0].clone()
    } else {
        String::new()
    };
    let ends = ["CASE", "ENDCASE"];
    assert(tokens_view(ends@) =~= seq!["CASE"@, "ENDCASE"@]);
    let body = match parse_block(s, i, &ends) {
        Ok(b) => b,
        Err(e) => {
            return Err(e);
        },
    };
    proof {
        lemma_arms_of_push(arms@, (cond, body));
    }
    arms.push((cond, body));
    parse_case_arms(s, i, arms)
}

/// Parses the directive at `i` (an `@` and a letter or `_`) and moves past it. A
/// block-closing word is left for the caller: the reader stays on its `@`.
pub fn parse_at_directive(s: &Vec<char>, i: &mut usize) -> (r: Result<Node, BasilError>)
    requires
        *old(i) < s.len(),
    ensures
        match directive(s@, *old(i) as int) {
            Ok((n, k)) => r matches Ok(x) && tree_of(x) == n && *final(i) == k,
            Err(e) => r matches Err(x) && x.0@ == e,
        },
        (ident_at(s@, *old(i) + 1).0 matches Some(name) && is_block_closer(upper_seq(name))) ==> *final(i)
            == *old(i),
        r matches Ok(x) ==> !(x is Text) && *old(i) < *final(i) <= s.len(),
    decreases s.len() - *old(i), 2int,
{
    let start = *i;
    proof {
        lemma_ident_at_bounds(s@, start + 1);
        lemma_run_end_bounds(s@, ident_at(s@, start + 1).1, crate::template::white_pred());
    }
    *i = *i + 1;
    let name = match read_ident(s, i) {
        Some(n) => n,
        None => {
            return Err(BasilError(string_of("RENDER$: expected directive name")));
        },
    };
    let uname = ascii_upper(name.as_str());
    let u = uname.as_str();
    if str_eq(u, "ELSE") || str_eq(u, "ENDIF") || str_eq(u, "ENDCASE") || str_eq(u, "FORELSE") || str_eq(
        u,
        "ENDFOREACH",
    ) || str_eq(u, "ENDTIMES") || str_eq(u, "ENDFOR") || str_eq(u, "ENDWHILE") {
        *i = start;
        return Err(BasilError(string_of("RENDER$: unexpected block control token")));
    }
    let is_break = str_eq(u, "BREAK");
    if is_break || str_eq(u, "CONTINUE") {
        skip_ws(s, i);
        if starts_with2(s, *i, "(") {
            proof {
                reveal_strlit("(");
                lemma_args_scan_bounds(s@, *i + 1, 1);
            }
            *i = *i + 1;
            match read_args_until_rparen(s, i) {
                Ok(_) => {},
                Err(e) => {
                    return Err(e);
                },
            }
        }
        return if is_break {
            Ok(Node::Break { pos: start })
        } else {
            Ok(Node::Continue { pos: start })
        };
    }
    skip_ws(s, i);
    if !starts_with2(s, *i, "(") {
        return Err(message("RENDER$: expected '(' after @", name.as_str()));
    }
    proof {
        reveal_strlit("(");
        lemma_args_scan_bounds(s@, *i + 1, 1);
    }
    *i = *i + 1;
    let args_src = match read_args_until_rparen(s, i) {
        Ok(a) => a,
        Err(e) => {
            return Err(e);
        },
    };
    parse_directive_body(s, i, start, uname, args_src)
}

/// Parses the rest of a directive named `uname` (upper case) at `start`, whose
/// argument text `args_src` has just been read.
fn parse_directive_body(s: &Vec<char>, i: &mut usize, start: usize, uname: String, args_src: String) -> (r: Result<
    Node,
    BasilError,
>)
    requires
        start < *old(i) <= s.len(),
    ensures
        match directive_body(s@, start as int, uname@, args_src@, *old(i) as int) {
            Ok((n, k)) => r matches Ok(x) && tree_of(x) == n && *final(i) == k,
            Err(e) => r matches Err(x) && x.0@ == e,
        },
        r matches Ok(x) ==> !(x is Text) && *old(i) <= *final(i) <= s.len(),
    decreases s.len() - *old(i), 6int,
{
    let u = uname.as_str();
    let args = split_top_level_commas(args_src.as_str());
    let first = if args.len() > 0 {
        args[0].clone()
    } else {
        String::new()
    };
    if str_eq(u, "IF") {
        return parse_if(s, i, start, first);
    }
    if str_eq(u, "CASE") {
        return parse_case(s, i, start, first);
    }
    let is_foreach = str_eq(u, "FOREACH") || str_eq(u, "FOREACH_KSORT") || str_eq(u, "FOREACH_VSORT") || str_eq(
        u,
        "FOREACH_KSORT_DESC",
    ) || str_eq(u, "FOREACH_DSORT_DESC");
    if is_foreach {
        let (var, expr) = match parse_foreach_header(args_src.as_str()) {
            Ok(h) => h,
            Err(e) => {
                return Err(e);
            },
        };
        let order = if str_eq(u, "FOREACH_KSORT") {
            ForEachOrder::KSortAsc
        } else if str_eq(u, "FOREACH_VSORT") {
            ForEachOrder::VSortAsc
        } else if str_eq(u, "FOREACH_KSORT_DESC") {
            ForEachOrder::KSortDesc
        } else if str_eq(u, "FOREACH_DSORT_DESC") {
            ForEachOrder::VSortDesc
        } else {
            ForEachOrder::Natural
        };
        return parse_foreach(s, i, start, order, var, expr);
    }
    parse_loop_or_call(s, i, start, uname, args_src)
}

fn parse_case(s: &Vec<char>, i: &mut usize, start: usize, first: String) -> (r: Result<Node, BasilError>)
    requires
        *old(i) <= s.len(),
    ensures
        match case_directive(s@, start as int, first@, *old(i) as int) {
            Ok((n, k)) => r matches Ok(x) && tree_of(x) == n && *final(i) == k,
            Err(e) => r matches Err(x) && x.0@ == e,
        },
        r matches Ok(x) ==> !(x is Text) && *old(i) <= *final(i) <= s.len(),
    decreases s.len() - *old(i), 5int,
{
    let ends = ["CASE", "ENDCASE"];
    assert(tokens_view(ends@) =~= seq!["CASE"@, "ENDCASE"@]);
    let body = match parse_block(s, i, &ends) {
        Ok(b) => b,
        Err(e) => {
            return Err(e);
        },
    };
    let mut arms: Vec<(String, Vec<Node>)> = Vec::new();
    proof {
        lemma_arms_of_push(arms@, (first, body));
        assert(arms_of(Seq::<(String, Vec<Node>)>::empty()) =~= seq![]);
    }
    arms.push((first, body));
    match parse_case_arms(s, i, &mut arms) {
        Ok(()) => {},
        Err(e) => {
            return Err(e);
        },
    }
    Ok(Node::Case { arms, pos: start })
}

fn parse_loop_or_call(s: &Vec<char>, i: &mut usize, start: usize, uname: String, args_src: String) -> (r: Result<
    Node,
    BasilError,
>)
    requires
        *old(i) <= s.len(),
    ensures
        match loop_or_call(s@, start as int, uname@, args_src@, *old(i) as int) {
            Ok((n, k)) => r matches Ok(x) && tree_of(x) == n && *final(i) == k,
            Err(e) => r matches Err(x) && x.0@ == e,
        },
        r matches Ok(x) ==> !(x is Text) && *old(i) <= *final(i) <= s.len(),
    decreases s.len() - *old(i), 5int,
{
    let u = uname.as_str();
    let args = split_top_level_commas(args_src.as_str());
    let first = if args.len() > 0 {
        args[0].clone()
    } else {
        String::new()
    };
    if str_eq(u, "TIMES") {
        let body = match parse_closed_body(s, i, "ENDTIMES", "RENDER$: expected @ENDTIMES") {
            Ok(b) => b,
            Err(e) => {
                return Err(e);
            },
        };
        let count = if args.len() > 0 {
            first
        } else {
            trim_string(args_src.as_str())
        };
        return Ok(Node::Times { count, body, pos: start });
    }
    if str_eq(u, "FOR") {
        let (var, from, to, step) = match parse_for_header(args_src.as_str()) {
            Ok(h) => h,
            Err(e) => {
                return Err(e);
            },
        };
        let body = match parse_closed_body(s, i, "ENDFOR", "RENDER$: expected @ENDFOR") {
            Ok(b) => b,
            Err(e) => {
                return Err(e);
            },
        };
        return Ok(Node::ForNum { var, start: from, end: to, step, body, pos: start });
    }
    if str_eq(u, "WHILE") {
        let body = match parse_closed_body(s, i, "ENDWHILE", "RENDER$: expected @ENDWHILE") {
            Ok(b) => b,
            Err(e) => {
                return Err(e);
            },
        };
        let cond = if args.len() > 0 {
            first
        } else {
            trim_string(args_src.as_str())
        };
        return Ok(Node::While { cond, body, pos: start });
    }
    Ok(Node::Call { name: uname, args, pos: start })
}

/// Parses a whole template.
/// The byte offset of character position `p` of `s`.
pub open spec fn byte_pos(s: Seq<char>, p: int) -> int {
    if 0 <= p <= s.len() {
        crate::lexer::offset(s, p)
    } else {
        p
    }
}

/// A parsed tree with each position, counted in characters, made a byte offset.
pub open spec fn tree_at_bytes(s: Seq<char>, t: Tree) -> Tree
    decreases t,
{
    match t {
        Tree::Text(x) => Tree::Text(x),
        Tree::Interp { expr, pos } => Tree::Interp { expr, pos: byte_pos(s, pos) },
        Tree::Call { name, args, pos } => Tree::Call { name, args, pos: byte_pos(s, pos) },
        Tree::If { cond, then_part, else_part, pos } => Tree::If {
            cond,
            then_part: trees_at_bytes(s, then_part),
            else_part: trees_at_bytes(s, else_part),
            pos: byte_pos(s, pos),
        },
        Tree::Case { arms, pos } => Tree::Case { arms: arms_at_bytes(s, arms), pos: byte_pos(s, pos) },
        Tree::ForEach { var, enumerable, body, else_part, order, pos } => Tree::ForEach {
            var,
            enumerable,
            body: trees_at_bytes(s, body),
            else_part: trees_at_bytes(s, else_part),
            order,
            pos: byte_pos(s, pos),
        },
        Tree::Times { count, body, pos } => Tree::Times { count, body: trees_at_bytes(s, body), pos: byte_pos(s, pos) },
        Tree::ForNum { var, start, end, step, body, pos } => Tree::ForNum {
            var,
            start,
            end,
            step,
            body: trees_at_bytes(s, body),
            pos: byte_pos(s, pos),
        },
        Tree::While { cond, body, pos } => Tree::While { cond, body: trees_at_bytes(s, body), pos: byte_pos(s, pos) },
        Tree::Break { pos } => Tree::Break { pos: byte_pos(s, pos) },
        Tree::Continue { pos } => Tree::Continue { pos: byte_pos(s, pos) },
    }
}

pub open spec fn trees_at_bytes(s: Seq<char>, ts: Seq<Tree>) -> Seq<Tree>
    decreases ts,
{
    if ts.len() == 0 {
        seq![]
    } else {
        trees_at_bytes(s, ts.drop_last()).push(tree_at_bytes(s, ts.last()))
    }
}

pub open spec fn arms_at_bytes(s: Seq<char>, arms: Seq<(Seq<char>, Seq<Tree>)>) -> Seq<(Seq<char>, Seq<Tree>)>
    decreases arms,
{
    if arms.len() == 0 {
        seq![]
    } else {
        arms_at_bytes(s, arms.drop_last()).push((arms.last().0, trees_at_bytes(s, arms.last().1)))
    }
}

/// Parses a template into its nodes; positions are byte offsets of the template.
pub fn parse_template(s: &str) -> (r: Result<Vec<Node>, BasilError>)
    requires
        crate::lexer::byte_len(s@) <= usize::MAX,
    ensures
        match template_trees(s@) {
            Ok(ns) => r matches Ok(v) && trees_of(v@) == trees_at_bytes(s@, ns),
            Err(e) => r matches Err(x) && x.0@ == e,
        },
{
    let v = chars_of(s);
    let mut i: usize = 0;
    let none: [&str; 0] = [];
    assert(tokens_view(none@) =~= Seq::<Seq<char>>::empty());
    match parse_block(&v, &mut i, &none) {
        Ok(nodes) => {
            let offs = byte_offsets(&v);
            Ok(nodes_at_bytes(&nodes, &offs, Ghost(v@)))
        },
        Err(e) => Err(e),
    }
}

/// The byte offset of each character position of `v`, and of its end.
fn byte_offsets(v: &Vec<char>) -> (offs: Vec<usize>)
    requires
        crate::lexer::byte_len(v@) <= usize::MAX,
    ensures
        offs@.len() == v@.len() + 1,
        forall|k: int| 0 <= k <= v@.len() ==> offs@[k] == crate::lexer::offset(v@, k),
{
    let mut offs: Vec<usize> = Vec::new();
    offs.push(0);
    let mut off: usize = 0;
    let mut i: usize = 0;
    assert(v@.take(0) =~= Seq::<char>::empty());
    while i < v.len()
        invariant
            i <= v.len(),
            crate::lexer::byte_len(v@) <= usize::MAX,
            offs@.len() == i + 1,
            off as int == crate::lexer::offset(v@, i as int),
            forall|k: int| 0 <= k <= i ==> offs@[k] == crate::lexer::offset(v@, k),
        decreases v.len() - i,
    {
        proof {
            crate::lexer::lemma_offset_step(v@, i as int);
            assert(v@.take(v@.len() as int) =~= v@);
        }
        off = off + crate::lexer::char_width(v[i]);
        offs.push(off);
        i += 1;
    }
    offs
}

fn pos_at_bytes(p: usize, offs: &Vec<usize>, s: Ghost<Seq<char>>) -> (r: usize)
    requires
        offs@.len() == s@.len() + 1,
        forall|k: int| 0 <= k <= s@.len() ==> offs@[k] == crate::lexer::offset(s@, k),
    ensures
        r as int == byte_pos(s@, p as int),
{
    if p < offs.len() {
        offs[p]
    } else {
        p
    }
}

fn node_at_bytes(n: &Node, offs: &Vec<usize>, s: Ghost<Seq<char>>) -> (r: Node)
    requires
        offs@.len() == s@.len() + 1,
        forall|k: int| 0 <= k <= s@.len() ==> offs@[k] == crate::lexer::offset(s@, k),
    ensures
        tree_of(r) == tree_at_bytes(s@, tree_of(*n)),
    decreases *n,
{
    match n {
        Node::Text(t) => Node::Text(t.clone()),
        Node::Interp { expr, pos } => Node::Interp { expr: expr.clone(), pos: pos_at_bytes(*pos, offs, s) },
        Node::Call { name, args, pos } => {
            let a = crate::evaluation::copy_strings(args);
            Node::Call { name: name.clone(), args: a, pos: pos_at_bytes(*pos, offs, s) }
        },
        Node::If { cond, then_part, else_part, pos } => {
            let t = nodes_at_bytes(then_part, offs, s);
            let e = nodes_at_bytes(else_part, offs, s);
            Node::If { cond: cond.clone(), then_part: t, else_part: e, pos: pos_at_bytes(*pos, offs, s) }
        },
        Node::Case { arms, pos } => {
            let a = arms_to_bytes(arms, offs, s);
            Node::Case { arms: a, pos: pos_at_bytes(*pos, offs, s) }
        },
        Node::ForEach { var, enumerable, body, else_part, order, pos } => {
            let b = nodes_at_bytes(body, offs, s);
            let e = nodes_at_bytes(else_part, offs, s);
            Node::ForEach {
                var: var.clone(),
                enumerable: enumerable.clone(),
                body: b,
                else_part: e,
                order: *order,
                pos: pos_at_bytes(*pos, offs, s),
            }
        },
        Node::Times { count, body, pos } => {
            let b = nodes_at_bytes(body, offs, s);
            Node::Times { count: count.clone(), body: b, pos: pos_at_bytes(*pos, offs, s) }
        },
        Node::ForNum { var, start, end, step, body, pos } => {
            let b = nodes_at_bytes(body, offs, s);
            let st = match step {
                Some(x) => Some(x.clone()),
                None => None,
            };
            Node::ForNum {
                var: var.clone(),
                start: start.clone(),
                end: end.clone(),
                step: st,
                body: b,
                pos: pos_at_bytes(*pos, offs, s),
            }
        },
        Node::While { cond, body, pos } => {
            let b = nodes_at_bytes(body, offs, s);
            Node::While { cond: cond.clone(), body: b, pos: pos_at_bytes(*pos, offs, s) }
        },
        Node::Break { pos } => Node::Break { pos: pos_at_bytes(*pos, offs, s) },
        Node::Continue { pos } => Node::Continue { pos: pos_at_bytes(*pos, offs, s) },
    }
}

fn nodes_at_bytes(v: &Vec<Node>, offs: &Vec<usize>, s: Ghost<Seq<char>>) -> (r: Vec<Node>)
    requires
        offs@.len() == s@.len() + 1,
        forall|k: int| 0 <= k <= s@.len() ==> offs@[k] == crate::lexer::offset(s@, k),
    ensures
        trees_of(r@) == trees_at_bytes(s@, trees_of(v@)),
    decreases *v,
{
    let mut r: Vec<Node> = Vec::new();
    let mut i: usize = 0;
    while i < v.len()
        invariant
            i <= v.len(),
            offs@.len() == s@.len() + 1,
            forall|k: int| 0 <= k <= s@.len() ==> offs@[k] == crate::lexer::offset(s@, k),
            trees_of(r@) == trees_at_bytes(s@, trees_of(v@.take(i as int))),
        decreases v.len() - i,
    {
        assert(decreases_to!(*v => v@[i as int]));
        let c = node_at_bytes(&v[i], offs, s);
        proof {
            lemma_trees_of_push(r@, c);
            lemma_trees_of_push(v@.take(i as int), v@[i as int]);
            assert(v@.take(i + 1) =~= v@.take(i as int).push(v@[i as int]));
            let ts = trees_of(v@.take(i + 1));
            assert(ts.drop_last() =~= trees_of(v@.take(i as int)));
        }
        r.push(c);
        i += 1;
    }
    assert(v@.take(v.len() as int) =~= v@);
    r
}

fn arms_to_bytes(v: &Vec<(String, Vec<Node>)>, offs: &Vec<usize>, s: Ghost<Seq<char>>) -> (r: Vec<(String, Vec<Node>)>)
    requires
        offs@.len() == s@.len() + 1,
        forall|k: int| 0 <= k <= s@.len() ==> offs@[k] == crate::lexer::offset(s@, k),
    ensures
        arms_of(r@) == arms_at_bytes(s@, arms_of(v@)),
    decreases *v,
{
    let mut r: Vec<(String, Vec<Node>)> = Vec::new();
    let mut i: usize = 0;
    while i < v.len()
        invariant
            i <= v.len(),
            offs@.len() == s@.len() + 1,
            forall|k: int| 0 <= k <= s@.len() ==> offs@[k] == crate::lexer::offset(s@, k),
            arms_of(r@) == arms_at_bytes(s@, arms_of(v@.take(i as int))),
        decreases v.len() - i,
    {
        assert(decreases_to!(*v => v@[i as int].1));
        let b = nodes_at_bytes(&v[i].1, offs, s);
        let a = (v[i].0.clone(), b);
        proof {
            lemma_arms_of_push(r@, a);
            lemma_arms_of_push(v@.take(i as int), v@[i as int]);
            assert(v@.take(i + 1) =~= v@.take(i as int).push(v@[i as int]));
            let ts = arms_of(v@.take(i + 1));
            assert(ts.drop_last() =~= arms_of(v@.take(i as int)));
        }
        r.push(a);
        i += 1;
    }
    assert(v@.take(v.len() as int) =~= v@);
    r
}

// ---------------------------------------------------------------------
// Positions only move forward

proof fn lemma_block_advances(s: Seq<char>, i: int, ends: Seq<Seq<char>>)
    requires
        0 <= i <= s.len(),
    ensures
        block(s, i, ends) matches Ok((_, j)) ==> i <= j <= s.len(),
    decreases s.len() - i, 3int,
{
    if i < s.len() && !ends_here(s, i, ends) {
        if at_directive(s, i) {
            lemma_directive_advances(s, i);
            if let Ok((n, j)) = directive(s, i) {
                lemma_block_advances(s, j, ends);
            }
        } else if occurs_at(s, "{{"@, i) {
            reveal_strlit("{{");
            reveal_strlit("}}");
            lemma_first_occurrence(s, "}}"@, i + 2);
            if let Some(p) = first_occurrence(s, "}}"@, i + 2) {
                lemma_block_advances(s, p + 2, ends);
            }
        } else {
            lemma_block_advances(s, i + 1, ends);
        }
    }
}

proof fn lemma_directive_advances(s: Seq<char>, i: int)
    requires
        0 <= i < s.len(),
    ensures
        directive(s, i) matches Ok((_, j)) ==> i < j <= s.len(),
    decreases s.len() - i, 2int,
{
    let (name, p) = ident_at(s, i + 1);
    lemma_ident_at_bounds(s, i + 1);
    lemma_run_end_bounds(s, p, crate::template::white_pred());
    let q = skip_ws_end(s, p);
    if q + 1 <= s.len() {
        lemma_args_scan_bounds(s, q + 1, 1);
        if let (Some(name), Some((a, src))) = (name, args_scan(s, q + 1, 1)) {
            let u = upper_seq(name);
            if !is_block_closer(u) && !(u == "BREAK"@ || u == "CONTINUE"@) {
                lemma_directive_body_advances(s, i, u, src, a);
            }
        }
    }
}

proof fn lemma_directive_body_advances(s: Seq<char>, i: int, u: Seq<char>, src: Seq<char>, a: int)
    requires
        0 <= a <= s.len(),
    ensures
        directive_body(s, i, u, src, a) matches Ok((_, k)) ==> a <= k <= s.len(),
    decreases s.len() - a, 6int,
{
    let args = split_scan(src, 0, 0, seq![]);
    let first = if args.len() > 0 { args[0] } else { seq![] };
    if u == "IF"@ {
        lemma_if_advances(s, i, first, a);
    } else if u == "CASE"@ {
        lemma_case_advances(s, i, first, a);
    } else if u == "FOREACH"@ || u == "FOREACH_KSORT"@ || u == "FOREACH_VSORT"@ || u == "FOREACH_KSORT_DESC"@
        || u == "FOREACH_DSORT_DESC"@ {
        if let Ok((var, expr)) = foreach_header(src) {
            lemma_foreach_advances(s, i, foreach_order(u), var, expr, a);
        }
    } else {
        lemma_loop_or_call_advances(s, i, u, src, a);
    }
}

proof fn lemma_closed_body_advances(s: Seq<char>, a: int, end: Seq<char>, missing: Seq<char>)
    requires
        0 <= a <= s.len(),
    ensures
        closed_body(s, a, end, missing) matches Ok((_, k)) ==> a < k <= s.len(),
    decreases s.len() - a, 4int,
{
    lemma_block_advances(s, a, seq![end]);
    if let Ok((_, j)) = block(s, a, seq![end]) {
        lemma_closer_at_bounds(s, j);
    }
}

proof fn lemma_if_advances(s: Seq<char>, i: int, cond: Seq<char>, a: int)
    requires
        0 <= a <= s.len(),
    ensures
        if_directive(s, i, cond, a) matches Ok((_, k)) ==> a <= k <= s.len(),
    decreases s.len() - a, 5int,
{
    lemma_block_advances(s, a, seq!["ELSE"@, "ENDIF"@]);
    if let Ok((_, j)) = block(s, a, seq!["ELSE"@, "ENDIF"@]) {
        lemma_closer_at_bounds(s, j);
        if let Some((t, j2)) = closer_at(s, j) {
            lemma_closed_body_advances(s, j2, "ENDIF"@, "RENDER$: expected @ENDIF"@);
        }
    }
}

proof fn lemma_foreach_advances(
    s: Seq<char>,
    i: int,
    order: ForEachOrder,
    var: Seq<char>,
    expr: Seq<char>,
    a: int,
)
    requires
        0 <= a <= s.len(),
    ensures
        foreach_directive(s, i, order, var, expr, a) matches Ok((_, k)) ==> a <= k <= s.len(),
    decreases s.len() - a, 5int,
{
    lemma_block_advances(s, a, seq!["FORELSE"@, "ENDFOREACH"@]);
    if let Ok((_, j)) = block(s, a, seq!["FORELSE"@, "ENDFOREACH"@]) {
        lemma_closer_at_bounds(s, j);
        if let Some((t, j2)) = closer_at(s, j) {
            lemma_closed_body_advances(s, j2, "ENDFOREACH"@, "RENDER$: expected @ENDFOREACH"@);
        }
    }
}

proof fn lemma_case_advances(s: Seq<char>, i: int, first: Seq<char>, a: int)
    requires
        0 <= a <= s.len(),
    ensures
        case_directive(s, i, first, a) matches Ok((_, k)) ==> a <= k <= s.len(),
    decreases s.len() - a, 5int,
{
    lemma_block_advances(s, a, seq!["CASE"@, "ENDCASE"@]);
    if let Ok((_, j)) = block(s, a, seq!["CASE"@, "ENDCASE"@]) {
        lemma_case_arms_advances(s, j);
    }
}

proof fn lemma_case_arms_advances(s: Seq<char>, j: int)
    requires
        0 <= j <= s.len(),
    ensures
        case_arms(s, j) matches Ok((_, k)) ==> j < k <= s.len(),
    decreases s.len() - j, 4int,
{
    lemma_closer_at_bounds(s, j);
    if let Some((t, j2)) = closer_at(s, j) {
        lemma_run_end_bounds(s, j2, crate::template::white_pred());
        let q = skip_ws_end(s, j2);
        if q + 1 <= s.len() {
            lemma_args_scan_bounds(s, q + 1, 1);
            if let Some((c, src)) = args_scan(s, q + 1, 1) {
                lemma_block_advances(s, c, seq!["CASE"@, "ENDCASE"@]);
                if let Ok((_, k)) = block(s, c, seq!["CASE"@, "ENDCASE"@]) {
                    lemma_case_arms_advances(s, k);
                }
            }
        }
    }
}

proof fn lemma_loop_or_call_advances(s: Seq<char>, i: int, u: Seq<char>, src: Seq<char>, a: int)
    requires
        0 <= a <= s.len(),
    ensures
        loop_or_call(s, i, u, src, a) matches Ok((_, k)) ==> a <= k <= s.len(),
    decreases s.len() - a, 5int,
{
    lemma_closed_body_advances(s, a, "ENDTIMES"@, "RENDER$: expected @ENDTIMES"@);
    lemma_closed_body_advances(s, a, "ENDFOR"@, "RENDER$: expected @ENDFOR"@);
    lemma_closed_body_advances(s, a, "ENDWHILE"@, "RENDER$: expected @ENDWHILE"@);
}

/// Parsing only moves forward: a block that parses ends at or after where it began,
/// and a directive that parses ends after its `@`, both within the text.
pub proof fn law_parse_moves_forward(s: Seq<char>, i: int, ends: Seq<Seq<char>>)
    requires
        0 <= i <= s.len(),
    ensures
        block(s, i, ends) matches Ok((_, j)) ==> i <= j <= s.len(),
        i < s.len() ==> (directive(s, i) matches Ok((_, j)) ==> i < j <= s.len()),
{
    lemma_block_advances(s, i, ends);
    if i < s.len() {
        lemma_directive_advances(s, i);
    }
}

/// Text with no directive (`@` and a letter or `_`) and no `{{`.
pub open spec fn plain_text(s: Seq<char>) -> bool {
    forall|i: int| 0 <= i < s.len() ==> !at_directive(s, i) && !occurs_at(s, "{{"@, i)
}

proof fn lemma_plain_block(s: Seq<char>, i: int)
    requires
        plain_text(s),
        0 <= i <= s.len(),
    ensures
        block(s, i, seq![]) == Ok::<(Seq<Tree>, int), Seq<char>>(
            (if i < s.len() { seq![Tree::Text(s.skip(i))] } else { seq![] }, s.len() as int),
        ),
    decreases s.len() - i,
{
    if i < s.len() {
        lemma_plain_block(s, i + 1);
        assert(!ends_here(s, i, seq![]));
        assert(!at_directive(s, i) && !occurs_at(s, "{{"@, i));
        if i + 1 < s.len() {
            assert(seq![s[i]] + s.skip(i + 1) =~= s.skip(i));
        } else {
            assert(seq![s[i]] =~= s.skip(i));
        }
    }
}

/// A template of plain text (no directive and no `{{`) parses to that text alone.
pub proof fn law_plain_text_parses_to_itself(s: Seq<char>)
    requires
        plain_text(s),
        s.len() > 0,
    ensures
        template_trees(s) == Ok::<Seq<Tree>, Seq<char>>(seq![Tree::Text(s)]),
{
    lemma_plain_block(s, 0);
    assert(s.skip(0) =~= s);
}

// ---------------------------------------------------------------------
// Bounds of the readers

pub proof fn lemma_run_end_bounds(s: Seq<char>, i: int, p: spec_fn(char) -> bool)
    requires
        0 <= i <= s.len(),
    ensures
        i <= run_end(s, i, p) <= s.len(),
{
    lemma_run_len_bound(s.skip(i), p);
}

pub proof fn lemma_ident_at_bounds(s: Seq<char>, i: int)
    requires
        0 <= i <= s.len(),
    ensures
        i <= ident_at(s, i).1 <= s.len(),
{
    lemma_run_end_bounds(s, i, crate::template::white_pred());
    lemma_run_end_bounds(s, skip_ws_end(s, i), crate::template::ident_pred());
}

pub proof fn lemma_closer_at_bounds(s: Seq<char>, j: int)
    ensures
        closer_at(s, j) matches Some((_, e)) ==> j < e <= s.len(),
{
    if at_directive(s, j) {
        lemma_ident_at_bounds(s, j + 1);
    }
}

pub proof fn lemma_args_scan_bounds(s: Seq<char>, j: int, depth: int)
    ensures
        args_scan(s, j, depth) matches Some((e, _)) ==> j < e <= s.len(),
    decreases s.len() - j,
{
    if 0 <= j < s.len() {
        if crate::template::is_quote(s[j]) {
            lemma_args_scan_bounds(s, crate::template::quote_end(s, j), depth);
        } else if !(s[j] == ')' && depth - 1 == 0) {
            let d = if s[j] == '(' {
                depth + 1
            } else if s[j] == ')' {
                depth - 1
            } else {
                depth
            };
            lemma_args_scan_bounds(s, j + 1, d);
        }
    }
}

} // verus!
