use vstd::prelude::*;

use crate::common::BasilError;
use crate::text::{
    chars_of, first_occurrence, is_alnum, is_alpha, is_ascii_alnum, is_ascii_alpha, is_white, is_whitespace, matches_at,
    decimal, lower_seq, occurs_at, push_char, push_decimal, push_str, string_from_range, string_of, upper_seq,
};

verus! {

// ---------------------------------------------------------------------
// Runs of characters

/// The length of the longest prefix of `s` whose characters all satisfy `p`.
pub open spec fn run_len(s: Seq<char>, p: spec_fn(char) -> bool) -> nat
    decreases s.len(),
{
    if s.len() == 0 || !p(s[0]) {
        0
    } else {
        1 + run_len(s.drop_first(), p)
    }
}

pub proof fn lemma_run_len_is(s: Seq<char>, p: spec_fn(char) -> bool, e: int)
    requires
        0 <= e <= s.len(),
        e < s.len() ==> !p(s[e]),
        forall|i: int| 0 <= i < e ==> p(s[i]),
    ensures
        run_len(s, p) == e,
    decreases s.len(),
{
    if e > 0 {
        assert forall|i: int| 0 <= i < e - 1 implies p(s.drop_first()[i]) by {
            assert(s.drop_first()[i] == s[i + 1]);
        }
        lemma_run_len_is(s.drop_first(), p, e - 1);
    }
}

pub proof fn lemma_run_len_bound(s: Seq<char>, p: spec_fn(char) -> bool)
    ensures
        run_len(s, p) <= s.len(),
    decreases s.len(),
{
    if s.len() > 0 && p(s[0]) {
        lemma_run_len_bound(s.drop_first(), p);
    }
}

/// Letters and `_`: the characters of a directive word.
pub open spec fn is_word_char(c: char) -> bool {
    is_ascii_alpha(c) || c == '_'
}

/// Letters, digits and `_`: the characters of an identifier.
pub open spec fn is_ident_char(c: char) -> bool {
    is_ascii_alnum(c) || c == '_'
}

pub open spec fn word_pred() -> spec_fn(char) -> bool {
    |c: char| is_word_char(c)
}

pub open spec fn ident_pred() -> spec_fn(char) -> bool {
    |c: char| is_ident_char(c)
}

pub open spec fn white_pred() -> spec_fn(char) -> bool {
    |c: char| is_white(c)
}

/// Where the run of characters satisfying `p` that starts at `i` ends.
pub open spec fn run_end(s: Seq<char>, i: int, p: spec_fn(char) -> bool) -> int {
    i + run_len(s.skip(i), p)
}

fn char_ok(c: char, which: u8) -> (b: bool)
    ensures
        b == (if which == 0 {
            word_pred()
        } else if which == 1 {
            ident_pred()
        } else {
            white_pred()
        })(c),
{
    if which == 0 {
        is_alpha(c) || c == '_'
    } else if which == 1 {
        is_alnum(c) || c == '_'
    } else {
        is_whitespace(c)
    }
}

/// Scans the run of characters satisfying `p` from `i`.
fn scan_run(s: &Vec<char>, i: usize, which: u8) -> (e: usize)
    requires
        i <= s.len(),
        which < 3,
    ensures
        e == run_end(
            s@,
            i as int,
            if which == 0 {
                word_pred()
            } else if which == 1 {
                ident_pred()
            } else {
                white_pred()
            },
        ),
        i <= e <= s.len(),
{
    let ghost p = if which == 0 {
        word_pred()
    } else if which == 1 {
        ident_pred()
    } else {
        white_pred()
    };
    let mut e = i;
    while e < s.len() && char_ok(s[e], which)
        invariant
            i <= e <= s.len(),
            which < 3,
            p == (if which == 0 {
                word_pred()
            } else if which == 1 {
                ident_pred()
            } else {
                white_pred()
            }),
            forall|k: int| i <= k < e ==> p(s@[k]),
        decreases s.len() - e,
    {
        e += 1;
    }
    proof {
        let rest = s@.skip(i as int);
        assert forall|k: int| 0 <= k < e - i implies p(rest[k]) by {
            assert(rest[k] == s@[k + i]);
        }
        lemma_run_len_is(rest, p, e - i);
    }
    e
}

// ---------------------------------------------------------------------
// Small readers used by the template parser

/// Whether `pat` occurs in `s` at position `i`.
pub fn starts_with2(s: &Vec<char>, i: usize, pat: &str) -> (r: bool)
    ensures
        r == occurs_at(s@, pat@, i as int),
{
    let p = chars_of(pat);
    matches_at(s, &p, i)
}

/// A directive starts at `i`: `@` followed by a letter or `_` (so that e-mail
/// addresses are left alone).
pub open spec fn at_directive(s: Seq<char>, i: int) -> bool {
    0 <= i && i + 1 < s.len() && s[i] == '@' && is_word_char(s[i + 1])
}

pub fn starts_with_at(s: &Vec<char>, i: usize) -> (r: bool)
    ensures
        r == at_directive(s@, i as int),
{
    if i < s.len() && s[i] == '@' && i + 1 < s.len() {
        let c = s[i + 1];
        is_alpha(c) || c == '_'
    } else {
        false
    }
}

/// The word (letters and `_`) that starts at `i`, if it is not empty.
pub open spec fn word_at(s: Seq<char>, i: int) -> Option<Seq<char>> {
    let e = run_end(s, i, word_pred());
    if e == i { None } else { Some(s.subrange(i, e)) }
}

pub fn peek_word(s: &Vec<char>, i: usize) -> (r: Option<String>)
    requires
        i <= s.len(),
    ensures
        match r {
            Some(w) => word_at(s@, i as int) == Some(w@),
            None => word_at(s@, i as int) is None,
        },
{
    let e = scan_run(s, i, 0);
    if e == i {
        None
    } else {
        Some(string_from_range(s, i, e))
    }
}

/// Where the white space that starts at `i` ends.
pub open spec fn skip_ws_end(s: Seq<char>, i: int) -> int {
    run_end(s, i, white_pred())
}

pub fn skip_ws(s: &Vec<char>, i: &mut usize)
    requires
        *old(i) <= s.len(),
    ensures
        *final(i) == skip_ws_end(s@, *old(i) as int),
        *final(i) <= s.len(),
{
    *i = scan_run(s, *i, 2);
}

/// What `read_ident` gives at `i`: after white space, the run of letters, digits and
/// `_`; `None` only when that run is empty and reaches the end of the text. It moves
/// to the end of the run.
pub open spec fn ident_at(s: Seq<char>, i: int) -> (Option<Seq<char>>, int) {
    let w = skip_ws_end(s, i);
    let e = run_end(s, w, ident_pred());
    if e == s.len() && e == w {
        (None, e)
    } else {
        (Some(s.subrange(w, e)), e)
    }
}

pub fn read_ident(s: &Vec<char>, i: &mut usize) -> (r: Option<String>)
    requires
        *old(i) <= s.len(),
    ensures
        (r matches Some(x) ==> ident_at(s@, *old(i) as int).0 == Some(x@)),
        (r is None ==> ident_at(s@, *old(i) as int).0 is None),
        *final(i) == ident_at(s@, *old(i) as int).1,
        *final(i) <= s.len(),
{
    skip_ws(s, i);
    let w = *i;
    let e = scan_run(s, w, 1);
    *i = e;
    if e == s.len() && e == w {
        None
    } else {
        Some(string_from_range(s, w, e))
    }
}


// ---------------------------------------------------------------------
// Quotes, parentheses and keywords

pub open spec fn is_quote(c: char) -> bool {
    c == '"' || c == '\''
}

/// Where a quoted run that opens at `j` ends: just after the same quote character
/// closes it, or at the end of the text. There are no escapes.
pub open spec fn quote_end(s: Seq<char>, j: int) -> int {
    let q = s[j];
    let r = run_len(s.skip(j + 1), |c: char| c != q);
    if j + 1 + r < s.len() {
        j + 1 + r + 1
    } else {
        s.len() as int
    }
}

fn scan_quote(s: &Vec<char>, j: usize) -> (k: usize)
    requires
        j < s.len(),
    ensures
        k == quote_end(s@, j as int),
        j < k <= s.len(),
{
    let q = s[j];
    let ghost p = |c: char| c != q;
    let mut k = j + 1;
    while k < s.len() && s[k] != q
        invariant
            j < k <= s.len(),
            q == s@[j as int],
            forall|m: int| j < m < k ==> p(s@[m]),
            p == (|c: char| c != q),
        decreases s.len() - k,
    {
        assert(p(s@[k as int]));
        k += 1;
    }
    proof {
        let rest = s@.skip(j + 1);
        assert forall|m: int| 0 <= m < k - j - 1 implies p(rest[m]) by {
            assert(rest[m] == s@[m + j + 1]);
        }
        if k < s.len() {
            assert(rest[k - j - 1] == s@[k as int]);
        }
        lemma_run_len_is(rest, p, k - j - 1);
    }
    if k < s.len() {
        k + 1
    } else {
        k
    }
}

/// Equal up to the case of ASCII letters (`eq_ignore_ascii_case`).
pub open spec fn eq_ignore_case(a: Seq<char>, b: Seq<char>) -> bool {
    lower_seq(a) == lower_seq(b)
}

pub fn eq_ignore_case_str(a: &str, b: &str) -> (r: bool)
    ensures
        r == eq_ignore_case(a@, b@),
{
    let x = crate::text::ascii_lower(a);
    let y = crate::text::ascii_lower(b);
    crate::text::str_eq(x.as_str(), y.as_str())
}

/// A letter, digit or `_`: a character that continues a name.
pub open spec fn name_char(c: char) -> bool {
    ('a' <= c <= 'z') || ('A' <= c <= 'Z') || ('0' <= c <= '9') || c == '_'
}

pub fn is_name_char(c: char) -> (r: bool)
    ensures
        r == name_char(c),
{
    ('a' <= c && c <= 'z') || ('A' <= c && c <= 'Z') || ('0' <= c && c <= '9') || c == '_'
}

/// Whether a word may begin at `i`: with `whole`, only where no name character
/// stands just before it.
pub open spec fn word_may_start(s: Seq<char>, i: int, whole: bool) -> bool {
    !whole || i == 0 || !name_char(s[i - 1])
}

/// The first position, from `i` on and outside quotes and parentheses (at depth
/// zero, counting from `depth`), where a word that equals `kw` up to case begins;
/// with `whole`, a word that does not start inside another word.
pub open spec fn keyword_scan(s: Seq<char>, kw: Seq<char>, i: int, depth: int, whole: bool) -> Option<int>
    decreases s.len() - i,
{
    if i < 0 || i >= s.len() {
        None
    } else if is_quote(s[i]) {
        keyword_scan(s, kw, quote_end(s, i), depth, whole)
    } else {
        let d = if s[i] == '(' {
            depth + 1
        } else if s[i] == ')' {
            depth - 1
        } else {
            depth
        };
        if d == 0 && word_may_start(s, i, whole) && (word_at(s, i) matches Some(w) && eq_ignore_case(w, kw)) {
            Some(i)
        } else {
            keyword_scan(s, kw, i + 1, d, whole)
        }
    }
}

/// Where the keyword `kw` first stands at top level in `s` (a position in characters).
pub fn find_keyword_top_level(src: &str, kw: &str) -> (r: Option<usize>)
    ensures
        match r {
            Some(p) => keyword_scan(src@, kw@, 0, 0, false) == Some(p as int),
            None => keyword_scan(src@, kw@, 0, 0, false) is None,
        },
{
    let s = chars_of(src);
    find_keyword_from(&s, kw, 0, 0, false)
}

fn find_keyword_from(s: &Vec<char>, kw: &str, from: usize, depth0: i128, whole: bool) -> (r: Option<usize>)
    requires
        from <= s.len(),
        -(from as int) <= depth0 <= from,
    ensures
        match r {
            Some(p) => keyword_scan(s@, kw@, from as int, depth0 as int, whole) == Some(p as int) && p < s@.len(),
            None => keyword_scan(s@, kw@, from as int, depth0 as int, whole) is None,
        },
{
    let mut i = from;
    let mut depth: i128 = depth0;
    while i < s.len()
        invariant
            from <= i <= s.len(),
            -(i as int) <= depth <= i,
            keyword_scan(s@, kw@, from as int, depth0 as int, whole) == keyword_scan(s@, kw@, i as int, depth as int, whole),
        decreases s.len() - i,
    {
        let c = s[i];
        if c == '"' || c == '\'' {
            i = scan_quote(s, i);
            continue;
        }
        if c == '(' {
            depth = depth + 1;
        } else if c == ')' {
            depth = depth - 1;
        }
        let may_start = !whole || i == 0 || !is_name_char(s[i - 1]);
        if depth == 0 && may_start {
            match peek_word(s, i) {
                Some(w) => {
                    if eq_ignore_case_str(w.as_str(), kw) {
                        return Some(i);
                    }
                },
                None => {},
            }
        }
        i += 1;
    }
    None
}

/// The pieces of `s` from `j` on, split at commas outside quotes and parentheses
/// (depth counted from `depth`), each trimmed; `cur` is the piece begun before `j`.
/// A last piece that is blank is dropped.
pub open spec fn split_scan(s: Seq<char>, j: int, depth: int, cur: Seq<char>) -> Seq<Seq<char>>
    decreases s.len() - j,
{
    if j < 0 || j >= s.len() {
        if crate::text::trim(cur).len() > 0 { seq![crate::text::trim(cur)] } else { seq![] }
    } else if is_quote(s[j]) {
        split_scan(s, quote_end(s, j), depth, cur + s.subrange(j, quote_end(s, j)))
    } else if s[j] == '(' {
        split_scan(s, j + 1, depth + 1, cur.push(s[j]))
    } else if s[j] == ')' {
        split_scan(s, j + 1, depth - 1, cur.push(s[j]))
    } else if s[j] == ',' && depth == 0 {
        seq![crate::text::trim(cur)] + split_scan(s, j + 1, depth, seq![])
    } else {
        split_scan(s, j + 1, depth, cur.push(s[j]))
    }
}

pub open spec fn strings_view(v: Seq<String>) -> Seq<Seq<char>> {
    v.map_values(|x: String| x@)
}

/// The comma-separated arguments of a directive.
pub fn split_top_level_commas(args_src: &str) -> (r: Vec<String>)
    ensures
        strings_view(r@) == split_scan(args_src@, 0, 0, seq![]),
{
    let s = chars_of(args_src);
    let mut out: Vec<String> = Vec::new();
    let mut cur: Vec<char> = Vec::new();
    let mut depth: i128 = 0;
    let mut j: usize = 0;
    while j < s.len()
        invariant
            j <= s.len(),
            s@ == args_src@,
            -(j as int) <= depth <= j,
            strings_view(out@) + split_scan(s@, j as int, depth as int, cur@) == split_scan(s@, 0, 0, seq![]),
        decreases s.len() - j,
    {
        let c = s[j];
        let ghost before = strings_view(out@);
        if c == '"' || c == '\'' {
            let k = scan_quote(&s, j);
            let mut m = j;
            let ghost cur0 = cur@;
            while m < k
                invariant
                    j <= m <= k <= s.len(),
                    cur@ == cur0 + s@.subrange(j as int, m as int),
                decreases k - m,
            {
                cur.push(s[m]);
                assert(cur0 + s@.subrange(j as int, m + 1) =~= (cur0 + s@.subrange(j as int, m as int)).push(s@[m as int]));
                m += 1;
            }
            j = k;
        } else if c == '(' {
            cur.push(c);
            depth = depth + 1;
            j += 1;
        } else if c == ')' {
            cur.push(c);
            depth = depth - 1;
            j += 1;
        } else if c == ',' && depth == 0 {
            let piece = crate::text::trimmed_string(&cur, 0, cur.len());
            assert(cur@.subrange(0, cur@.len() as int) =~= cur@);
            out.push(piece);
            assert(strings_view(out@) =~= before.push(crate::text::trim(cur@)));
            assert(before.push(crate::text::trim(cur@)) + split_scan(s@, j + 1, depth as int, seq![]) =~= before + (
            seq![crate::text::trim(cur@)] + split_scan(s@, j + 1, depth as int, seq![])));
            cur = Vec::new();
            j += 1;
        } else {
            cur.push(c);
            j += 1;
        }
    }
    let piece = crate::text::trimmed_string(&cur, 0, cur.len());
    assert(cur@.subrange(0, cur@.len() as int) =~= cur@);
    let ghost before = strings_view(out@);
    if piece.as_str().is_empty() {
        assert(strings_view(out@) =~= before + split_scan(s@, j as int, depth as int, cur@));
    } else {
        out.push(piece);
        assert(strings_view(out@) =~= before + split_scan(s@, j as int, depth as int, cur@));
    }
    out
}


/// The text of a parenthesized argument list whose `(` was just read, from `j` on with
/// `depth` parentheses open: the position just after the `)` that closes it, and the
/// text before that `)`. Quoted runs are copied whole. `None` when the text ends first.
pub open spec fn args_scan(s: Seq<char>, j: int, depth: int) -> Option<(int, Seq<char>)>
    decreases s.len() - j,
{
    if j < 0 || j >= s.len() {
        None
    } else if is_quote(s[j]) {
        match args_scan(s, quote_end(s, j), depth) {
            Some((e, o)) => Some((e, s.subrange(j, quote_end(s, j)) + o)),
            None => None,
        }
    } else if s[j] == ')' && depth - 1 == 0 {
        Some((j + 1, seq![]))
    } else {
        let d = if s[j] == '(' {
            depth + 1
        } else if s[j] == ')' {
            depth - 1
        } else {
            depth
        };
        match args_scan(s, j + 1, d) {
            Some((e, o)) => Some((e, seq![s[j]] + o)),
            None => None,
        }
    }
}

/// Where an argument list that never closes leaves the reader: just after the last
/// quoted run read from `j` on, else at `last`.
pub open spec fn args_fail_at(s: Seq<char>, j: int, depth: int, last: int) -> int
    decreases s.len() - j,
{
    if j < 0 || j >= s.len() {
        last
    } else if is_quote(s[j]) {
        args_fail_at(s, quote_end(s, j), depth, quote_end(s, j))
    } else if s[j] == ')' && depth - 1 == 0 {
        last
    } else {
        let d = if s[j] == '(' {
            depth + 1
        } else if s[j] == ')' {
            depth - 1
        } else {
            depth
        };
        args_fail_at(s, j + 1, d, last)
    }
}

pub open spec fn prepend(out: Seq<char>, r: Option<(int, Seq<char>)>) -> Option<(int, Seq<char>)> {
    match r {
        Some((e, o)) => Some((e, out + o)),
        None => None,
    }
}

/// Reads the arguments of a directive after its `(`, and moves past the closing `)`.
pub fn read_args_until_rparen(s: &Vec<char>, i: &mut usize) -> (r: Result<String, BasilError>)
    requires
        *old(i) <= s.len(),
    ensures
        match r {
            Ok(a) => args_scan(s@, *old(i) as int, 1) == Some((*final(i) as int, a@)),
            Err(e) => args_scan(s@, *old(i) as int, 1) is None && e.0@ == "RENDER$: unclosed ')'"@
                && *final(i) == args_fail_at(s@, *old(i) as int, 1, *old(i) as int),
        },
        *final(i) <= s.len(),
{
    let mut out: Vec<char> = Vec::new();
    let mut opened: usize = 0;
    let mut j: usize = *i;
    while j < s.len()
        invariant
            *old(i) <= *i <= j <= s.len(),
            args_fail_at(s@, *old(i) as int, 1, *old(i) as int) == args_fail_at(
                s@,
                j as int,
                (opened + 1) as int,
                *i as int,
            ),
            opened <= j - *old(i),
            args_scan(s@, *old(i) as int, 1) == prepend(out@, args_scan(s@, j as int, (opened + 1) as int)),
        decreases s.len() - j,
    {
        let c = s[j];
        let ghost o = out@;
        if c == '"' || c == '\'' {
            let k = scan_quote(s, j);
            let mut m = j;
            while m < k
                invariant
                    j <= m <= k <= s.len(),
                    out@ == o + s@.subrange(j as int, m as int),
                decreases k - m,
            {
                out.push(s[m]);
                assert(o + s@.subrange(j as int, m + 1) =~= (o + s@.subrange(j as int, m as int)).push(s@[m as int]));
                m += 1;
            }
            assert(prepend(o, args_scan(s@, j as int, (opened + 1) as int)) =~= prepend(out@, args_scan(s@, k as int, (opened + 1) as int)));
            j = k;
            *i = k;
        } else if c == ')' && opened == 0 {
            assert(out@ + seq![] =~= out@);
            *i = j + 1;
            return Ok(string_from_chars_vec(&out));
        } else {
            out.push(c);
            let ghost d: int = if c == '(' {
                opened + 2
            } else if c == ')' {
                opened as int
            } else {
                (opened + 1) as int
            };
            assert(prepend(o, args_scan(s@, j as int, (opened + 1) as int)) =~= prepend(out@, args_scan(s@, j + 1, d)));
            if c == '(' {
                opened = opened + 1;
            } else if c == ')' {
                opened = opened - 1;
            }
            j += 1;
        }
    }
    Err(BasilError(string_of("RENDER$: unclosed ')'")))
}

fn string_from_chars_vec(v: &Vec<char>) -> (s: String)
    ensures
        s@ == v@,
{
    crate::text::string_from_chars(v)
}

/// Reads up to the first `end` after `i` and moves past it.
pub fn read_balanced_until(s: &Vec<char>, i: &mut usize, end: &str) -> (r: Result<String, BasilError>)
    requires
        *old(i) <= s.len(),
    ensures
        match first_occurrence(s@, end@, *old(i) as int) {
            Some(p) => r matches Ok(x) && x@ == s@.subrange(*old(i) as int, p) && *final(i) == p + end@.len(),
            None => r matches Err(e) && e.0@ == "RENDER$: expected '"@ + end@ + "' to close"@ && *final(i)
                == *old(i),
        },
        *final(i) <= s.len(),
{
    let pat = chars_of(end);
    proof {
        crate::text::lemma_first_occurrence(s@, end@, *i as int);
    }
    match crate::text::find_from(s, &pat, *i) {
        Some(p) => {
            let out = string_from_range(s, *i, p);
            *i = p + pat.len();
            Ok(out)
        },
        None => {
            let mut m = string_of("RENDER$: expected '");
            crate::text::push_str(&mut m, end);
            crate::text::push_str(&mut m, "' to close");
            Err(BasilError(m))
        },
    }
}


// ---------------------------------------------------------------------
// Loop headers

fn subvec(v: &Vec<char>, a: usize, b: usize) -> (r: Vec<char>)
    requires
        a <= b <= v.len(),
    ensures
        r@ == v@.subrange(a as int, b as int),
{
    let mut r: Vec<char> = Vec::new();
    let mut k = a;
    while k < b
        invariant
            a <= k <= b <= v.len(),
            r@ == v@.subrange(a as int, k as int),
        decreases b - k,
    {
        r.push(v[k]);
        assert(v@.subrange(a as int, k + 1) =~= v@.subrange(a as int, k as int).push(v@[k as int]));
        k += 1;
    }
    r
}

/// The trimmed copy of `v[a..b]`, as characters.
fn trimmed_vec(v: &Vec<char>, a: usize, b: usize) -> (r: Vec<char>)
    requires
        a <= b <= v.len(),
    ensures
        r@ == crate::text::trim(v@.subrange(a as int, b as int)),
{
    let (x, y) = crate::text::trim_bounds(v, a, b);
    subvec(v, x, y)
}

/// `var IN expr` split into its variable and its expression, or the error message.
pub open spec fn foreach_header(src: Seq<char>) -> Result<(Seq<char>, Seq<char>), Seq<char>> {
    match keyword_scan(src, "IN"@, 0, 0, true) {
        None => Err("RENDER$: malformed @FOREACH header; expected 'var IN expr'"@),
        Some(p) => {
            let left = crate::text::trim(src.take(p));
            let right = crate::text::trim(src.skip(run_end(src, p, word_pred())));
            if left.len() == 0 || right.len() == 0 {
                Err("RENDER$: malformed @FOREACH header"@)
            } else {
                Ok((left, right))
            }
        },
    }
}

/// Reads the header of `@FOREACH(var IN expr)`.
pub fn parse_foreach_header(src: &str) -> (r: Result<(String, String), BasilError>)
    ensures
        match r {
            Ok((a, b)) => foreach_header(src@) == Ok::<(Seq<char>, Seq<char>), Seq<char>>((a@, b@)),
            Err(e) => foreach_header(src@) == Err::<(Seq<char>, Seq<char>), Seq<char>>(e.0@),
        },
{
    let s = chars_of(src);
    match find_keyword_from(&s, "IN", 0, 0, true) {
        None => Err(BasilError(string_of("RENDER$: malformed @FOREACH header; expected 'var IN expr'"))),
        Some(p) => {
            let left = crate::text::trimmed_string(&s, 0, p);
            assert(s@.subrange(0, p as int) =~= s@.take(p as int));
            let j = scan_run(&s, p, 0);
            let right = crate::text::trimmed_string(&s, j, s.len());
            assert(s@.subrange(j as int, s@.len() as int) =~= s@.skip(j as int));
            if left.as_str().is_empty() || right.as_str().is_empty() {
                Err(BasilError(string_of("RENDER$: malformed @FOREACH header")))
            } else {
                Ok((left, right))
            }
        },
    }
}

/// The first `=` outside quotes and parentheses, from `i` on, with `depth` open.
pub open spec fn eq_scan(s: Seq<char>, i: int, depth: int) -> Option<int>
    decreases s.len() - i,
{
    if i < 0 || i >= s.len() {
        None
    } else if is_quote(s[i]) {
        eq_scan(s, quote_end(s, i), depth)
    } else if s[i] == '(' {
        eq_scan(s, i + 1, depth + 1)
    } else if s[i] == ')' {
        eq_scan(s, i + 1, depth - 1)
    } else if s[i] == '=' && depth == 0 {
        Some(i)
    } else {
        eq_scan(s, i + 1, depth)
    }
}

fn find_eq(s: &Vec<char>) -> (r: Option<usize>)
    ensures
        match r {
            Some(p) => eq_scan(s@, 0, 0) == Some(p as int) && p < s.len(),
            None => eq_scan(s@, 0, 0) is None,
        },
{
    let mut i: usize = 0;
    let mut depth: i128 = 0;
    while i < s.len()
        invariant
            i <= s.len(),
            -(i as int) <= depth <= i,
            eq_scan(s@, 0, 0) == eq_scan(s@, i as int, depth as int),
        decreases s.len() - i,
    {
        let c = s[i];
        if c == '"' || c == '\'' {
            i = scan_quote(s, i);
        } else if c == '(' {
            depth = depth + 1;
            i += 1;
        } else if c == ')' {
            depth = depth - 1;
            i += 1;
        } else if c == '=' && depth == 0 {
            return Some(i);
        } else {
            i += 1;
        }
    }
    None
}

/// The parts of a `@FOR` header.
pub type ForParts = (Seq<char>, Seq<char>, Seq<char>, Option<Seq<char>>);

/// `var = start TO end [STEP step]` split into its parts, or the error message.
pub open spec fn for_header(src: Seq<char>) -> Result<ForParts, Seq<char>> {
    match eq_scan(src, 0, 0) {
        None => Err("RENDER$: malformed @FOR header; expected '='"@),
        Some(eq) => {
            let var = crate::text::trim(src.take(eq));
            let rest = crate::text::trim(src.skip(eq + 1));
            match keyword_scan(rest, "TO"@, 0, 0, false) {
                None => Err("RENDER$: malformed @FOR header; expected 'TO'"@),
                Some(t) => {
                    let start = crate::text::trim(rest.take(t));
                    let after = crate::text::trim(rest.skip(run_end(rest, t, word_pred())));
                    let (end, step) = match keyword_scan(after, "STEP"@, 0, 0, false) {
                        Some(si) => {
                            let st = crate::text::trim(after.skip(run_end(after, si, word_pred())));
                            (crate::text::trim(after.take(si)), if st.len() == 0 { None } else { Some(st) })
                        },
                        None => (after, None),
                    };
                    if var.len() == 0 || start.len() == 0 || end.len() == 0 {
                        Err("RENDER$: malformed @FOR header"@)
                    } else {
                        Ok((var, start, end, step))
                    }
                },
            }
        },
    }
}

pub open spec fn opt_view(o: Option<String>) -> Option<Seq<char>> {
    match o {
        Some(x) => Some(x@),
        None => None,
    }
}

/// Reads the header of `@FOR(var = start TO end [STEP step])`.
pub fn parse_for_header(src: &str) -> (r: Result<(String, String, String, Option<String>), BasilError>)
    ensures
        match r {
            Ok((a, b, c, d)) => for_header(src@) == Ok::<ForParts, Seq<char>>((a@, b@, c@, opt_view(d))),
            Err(e) => for_header(src@) == Err::<ForParts, Seq<char>>(e.0@),
        },
{
    let s = chars_of(src);
    let eq = match find_eq(&s) {
        Some(p) => p,
        None => {
            return Err(BasilError(string_of("RENDER$: malformed @FOR header; expected '='")));
        },
    };
    let var = crate::text::trimmed_string(&s, 0, eq);
    assert(s@.subrange(0, eq as int) =~= s@.take(eq as int));
    let rest = trimmed_vec(&s, eq + 1, s.len());
    assert(s@.subrange(eq + 1, s@.len() as int) =~= s@.skip(eq + 1));
    let t = match find_keyword_from(&rest, "TO", 0, 0, false) {
        Some(t) => t,
        None => {
            return Err(BasilError(string_of("RENDER$: malformed @FOR header; expected 'TO'")));
        },
    };
    let start = crate::text::trimmed_string(&rest, 0, t);
    assert(rest@.subrange(0, t as int) =~= rest@.take(t as int));
    let m = scan_run(&rest, t, 0);
    let after = trimmed_vec(&rest, m, rest.len());
    assert(rest@.subrange(m as int, rest@.len() as int) =~= rest@.skip(m as int));
    let (end, step) = match find_keyword_from(&after, "STEP", 0, 0, false) {
        Some(si) => {
            let end_e = crate::text::trimmed_string(&after, 0, si);
            assert(after@.subrange(0, si as int) =~= after@.take(si as int));
            let p = scan_run(&after, si, 0);
            let step_e = crate::text::trimmed_string(&after, p, after.len());
            assert(after@.subrange(p as int, after@.len() as int) =~= after@.skip(p as int));
            if step_e.as_str().is_empty() {
                (end_e, None)
            } else {
                (end_e, Some(step_e))
            }
        },
        None => (crate::text::string_from_chars(&after), None),
    };
    if var.as_str().is_empty() || start.as_str().is_empty() || end.as_str().is_empty() {
        return Err(BasilError(string_of("RENDER$: malformed @FOR header")));
    }
    Ok((var, start, end, step))
}


// ---------------------------------------------------------------------
// Expressions in templates

/// A name that may be assigned to: a letter or `_`, then letters, digits and `_`,
/// and an optional type suffix `$` or `%` at the end.
pub open spec fn simple_identifier(name: Seq<char>) -> bool {
    &&& name.len() > 0
    &&& is_word_char(name[0])
    &&& forall|k: int| 1 <= k < ident_body(name).len() ==> is_ident_char(#[trigger] ident_body(name)[k])
}

/// A name without its type suffix (`$` or `%`), if it has one.
pub open spec fn ident_body(name: Seq<char>) -> Seq<char> {
    if name.len() > 0 && (name.last() == '$' || name.last() == '%') { name.drop_last() } else { name }
}

pub fn is_simple_identifier(name: &str) -> (r: bool)
    ensures
        r == simple_identifier(name@),
{
    let v = chars_of(name);
    if v.len() == 0 {
        return false;
    }
    let first = v[0];
    if !(is_alpha(first) || first == '_') {
        return false;
    }
    let last = v[v.len() - 1];
    let n = if last == '$' || last == '%' { v.len() - 1 } else { v.len() };
    let ghost body = ident_body(v@);
    assert(body.len() == n);
    let mut k: usize = 1;
    while k < n
        invariant
            1 <= k,
            n <= v.len(),
            v@ == name@,
            body == ident_body(name@),
            body.len() == n,
            forall|m: int| 0 <= m < n ==> body[m] == v@[m],
            forall|m: int| 1 <= m < k && m < n ==> is_ident_char(#[trigger] body[m]),
        decreases n - k,
    {
        let c = v[k];
        if !(is_alnum(c) || c == '_') {
            assert(!is_ident_char(ident_body(name@)[k as int]));
            return false;
        }
        k += 1;
    }
    true
}

/// Where the `=` of an assignment stands, scanning from `i` with `depth` parentheses open
/// and inside the string opened by `quote` (if any). Backslash escapes inside strings;
/// `==`, `<=`, `>=` and `=` after `=` are comparisons, not assignments.
pub open spec fn assign_scan(s: Seq<char>, i: int, depth: int, quote: Option<char>) -> Option<int>
    decreases s.len() - i,
{
    if i < 0 || i >= s.len() {
        None
    } else {
        match quote {
            Some(q) => if s[i] == '\\' {
                assign_scan(s, if i + 1 < s.len() { i + 2 } else { i + 1 }, depth, quote)
            } else if s[i] == q {
                assign_scan(s, i + 1, depth, None)
            } else {
                assign_scan(s, i + 1, depth, quote)
            },
            None => if is_quote(s[i]) {
                assign_scan(s, i + 1, depth, Some(s[i]))
            } else if s[i] == '(' {
                assign_scan(s, i + 1, depth + 1, None)
            } else if s[i] == ')' {
                assign_scan(s, i + 1, depth - 1, None)
            } else if s[i] == '=' && depth == 0 {
                if (i > 0 && (s[i - 1] == '<' || s[i - 1] == '>' || s[i - 1] == '=')) || (i + 1 < s.len() && s[i + 1] == '=') {
                    assign_scan(s, i + 1, depth, None)
                } else {
                    Some(i)
                }
            } else {
                assign_scan(s, i + 1, depth, None)
            },
        }
    }
}

/// Whether `src` is `IDENT = expr` at top level, and the identifier.
pub open spec fn simple_assignment(src: Seq<char>) -> (bool, Option<Seq<char>>) {
    let t = crate::text::trim(src);
    match assign_scan(t, 0, 0, None) {
        Some(i) => {
            let lhs = crate::text::trim(t.take(i));
            if simple_identifier(lhs) { (true, Some(lhs)) } else { (false, None) }
        },
        None => (false, None),
    }
}

pub fn detect_simple_assignment(src: &str) -> (r: (bool, Option<String>))
    ensures
        r.0 == simple_assignment(src@).0,
        opt_view(r.1) == simple_assignment(src@).1,
{
    let all = chars_of(src);
    let s = trimmed_vec(&all, 0, all.len());
    assert(all@.subrange(0, all@.len() as int) =~= all@);
    let mut i: usize = 0;
    let mut depth: i128 = 0;
    let mut quote: Option<char> = None;
    while i < s.len()
        invariant
            i <= s.len(),
            -(i as int) <= depth <= i,
            s@ == crate::text::trim(src@),
            assign_scan(s@, 0, 0, None) == assign_scan(s@, i as int, depth as int, quote),
        decreases s.len() - i,
    {
        let c = s[i];
        match quote {
            Some(q) => {
                if c == '\\' {
                    i += 1;
                    if i < s.len() {
                        i += 1;
                    }
                } else if c == q {
                    quote = None;
                    i += 1;
                } else {
                    i += 1;
                }
            },
            None => {
                if c == '"' || c == '\'' {
                    quote = Some(c);
                    i += 1;
                } else if c == '(' {
                    depth = depth + 1;
                    i += 1;
                } else if c == ')' {
                    depth = depth - 1;
                    i += 1;
                } else if c == '=' && depth == 0 {
                    let prev_op = i > 0 && (s[i - 1] == '<' || s[i - 1] == '>' || s[i - 1] == '=');
                    let next_eq = i + 1 < s.len() && s[i + 1] == '=';
                    if prev_op || next_eq {
                        i += 1;
                    } else {
                        let lhs = crate::text::trimmed_string(&s, 0, i);
                        assert(s@.subrange(0, i as int) =~= s@.take(i as int));
                        if is_simple_identifier(lhs.as_str()) {
                            return (true, Some(lhs));
                        } else {
                            return (false, None);
                        }
                    }
                } else {
                    i += 1;
                }
            },
        }
    }
    (false, None)
}

/// A character as it stands inside a quoted Basil string literal.
pub open spec fn escaped(c: char) -> Seq<char> {
    if c == '"' {
        seq!['\\', '"']
    } else if c == '\\' {
        seq!['\\', '\\']
    } else {
        seq![c]
    }
}

pub open spec fn escape_all(s: Seq<char>) -> Seq<char>
    decreases s.len(),
{
    if s.len() == 0 {
        seq![]
    } else {
        escape_all(s.drop_last()) + escaped(s.last())
    }
}

/// A Basil string literal whose value is `s`.
pub fn basil_string_literal(s: &str) -> (r: String)
    ensures
        r@ == seq!['"'] + escape_all(s@) + seq!['"'],
{
    let v = chars_of(s);
    let mut out = String::new();
    push_char(&mut out, '"');
    let mut i: usize = 0;
    while i < v.len()
        invariant
            i <= v.len(),
            v@ == s@,
            out@ == seq!['"'] + escape_all(v@.take(i as int)),
        decreases v.len() - i,
    {
        let ch = v[i];
        if ch == '"' {
            push_char(&mut out, '\\');
            push_char(&mut out, '"');
        } else if ch == '\\' {
            push_char(&mut out, '\\');
            push_char(&mut out, '\\');
        } else {
            push_char(&mut out, ch);
        }
        assert(v@.take(i + 1).drop_last() =~= v@.take(i as int));
        assert(out@ =~= seq!['"'] + escape_all(v@.take(i + 1)));
        i += 1;
    }
    assert(v@.take(v.len() as int) =~= v@);
    push_char(&mut out, '"');
    assert(out@ =~= seq!['"'] + escape_all(s@) + seq!['"']);
    out
}

/// No `#` in `s` is followed by `{`: nothing in it opens an interpolation.
pub open spec fn no_interpolation(s: Seq<char>) -> bool {
    forall|j: int| 0 <= j < s.len() - 1 && #[trigger] s[j] == '#' ==> s[j + 1] != '{'
}

proof fn lemma_escape_all_front(s: Seq<char>)
    requires
        s.len() > 0,
    ensures
        escape_all(s) == escaped(s[0]) + escape_all(s.drop_first()),
    decreases s.len(),
{
    if s.len() == 1 {
        assert(s.drop_last() =~= Seq::<char>::empty());
        assert(s.drop_first() =~= Seq::<char>::empty());
        assert(escape_all(s.drop_first()) == Seq::<char>::empty());
        assert(escape_all(s) =~= escaped(s[0]) + escape_all(s.drop_first()));
    } else {
        lemma_escape_all_front(s.drop_last());
        assert(s.drop_last().drop_first() =~= s.drop_first().drop_last());
        assert(s.drop_first().last() == s.last());
        assert(escape_all(s.drop_first()) == escape_all(s.drop_first().drop_last()) + escaped(s.drop_first().last()));
        assert(escape_all(s) =~= escaped(s[0]) + escape_all(s.drop_first()));
    }
}

proof fn lemma_close_escaped(src: Seq<char>, k: int, s: Seq<char>)
    requires
        0 <= k,
        k + escape_all(s).len() < src.len(),
        src.subrange(k, k + escape_all(s).len()) == escape_all(s),
        src[k + escape_all(s).len()] == '"',
    ensures
        crate::lexer::string_close(src, k) == Some(k + escape_all(s).len()),
    decreases s.len(),
{
    if s.len() == 0 {
        assert(escape_all(s).len() == 0);
    } else {
        lemma_escape_all_front(s);
        let e = escaped(s[0]);
        let rest = s.drop_first();
        let n = escape_all(s).len();
        assert(src.subrange(k + e.len(), k + e.len() + escape_all(rest).len()) =~= escape_all(rest)) by {
            assert forall|m: int| 0 <= m < escape_all(rest).len() implies src[k + e.len() + m] == escape_all(rest)[m] by {
                assert(src.subrange(k, k + n)[e.len() + m] == escape_all(s)[e.len() + m]);
            }
        }
        lemma_close_escaped(src, k + e.len(), rest);
        assert(src[k] == escape_all(s)[0]) by {
            assert(src.subrange(k, k + n)[0] == escape_all(s)[0]);
        }
        if s[0] == '"' || s[0] == '\\' {
            assert(src[k] == '\\');
        } else {
            assert(src[k] == s[0]);
        }
    }
}

proof fn lemma_cook_escaped(
    src: Seq<char>,
    q: int,
    k: int,
    s: Seq<char>,
    lit: Seq<char>,
    built: Seq<crate::lexer::TokenView>,
    sp: crate::common::Span,
    line: u32,
)
    requires
        0 <= k,
        k + escape_all(s).len() == q,
        q < src.len(),
        src.subrange(k, q) == escape_all(s),
        no_interpolation(s),
    ensures
        crate::lexer::cook(src, q, k, lit, built, false, false, sp, line) == Ok::<
            (Seq<crate::lexer::TokenView>, Seq<char>, bool, bool),
            Seq<char>,
        >((built, lit + s, false, false)),
    decreases s.len(),
{
    if s.len() == 0 {
        assert(lit + s =~= lit);
        crate::lexer::lemma_cook_end(src, q, k, lit, built, false, false, sp, line);
    } else {
        lemma_escape_all_front(s);
        let e = escaped(s[0]);
        let rest = s.drop_first();
        assert(src.subrange(k + e.len(), q) =~= escape_all(rest)) by {
            assert forall|m: int| 0 <= m < escape_all(rest).len() implies src[k + e.len() + m] == escape_all(rest)[m] by {
                assert(src.subrange(k, q)[e.len() + m] == escape_all(s)[e.len() + m]);
            }
        }
        assert(no_interpolation(rest)) by {
            assert forall|j: int| 0 <= j < rest.len() - 1 && #[trigger] rest[j] == '#' implies rest[j + 1] != '{' by {
                assert(s[j + 1] == rest[j]);
                assert(s[j + 2] == rest[j + 1]);
            }
        }
        assert(src[k] == escape_all(s)[0]) by {
            assert(src.subrange(k, q)[0] == escape_all(s)[0]);
        }
        assert(s =~= seq![s[0]] + rest);
        if s[0] == '"' || s[0] == '\\' {
            assert(src[k + 1] == escape_all(s)[1]) by {
                assert(src.subrange(k, q)[1] == escape_all(s)[1]);
            }
            crate::lexer::lemma_cook_escape(src, q, k, lit, built, false, false, sp, line);
            assert(crate::lexer::escape_at(src, q, k) == (seq![s[0]], k + 2));
            lemma_cook_escaped(src, q, k + 2, rest, lit + seq![s[0]], built, sp, line);
            assert(lit + seq![s[0]] + rest =~= lit + s);
        } else {
            assert(src[k] == s[0]);
            if s[0] == '#' && k + 1 < q {
                assert(rest.len() > 0);
                lemma_escape_all_front(rest);
                assert(src[k + 1] == escape_all(s)[1]) by {
                    assert(src.subrange(k, q)[1] == escape_all(s)[1]);
                }
                assert(escape_all(s)[1] == escaped(rest[0])[0]);
                assert(s[1] == rest[0]);
                assert(s[0] == '#' ==> s[1] != '{');
            }
            crate::lexer::lemma_cook_plain(src, q, k, lit, built, false, false, sp, line);
            lemma_cook_escaped(src, q, k + 1, rest, lit.push(s[0]), built, sp, line);
            assert(lit.push(s[0]) + rest =~= lit + s);
        }
    }
}

proof fn lemma_string_tok_escaped(s: Seq<char>, line: int)
    requires
        no_interpolation(s),
    ensures
        ({
            let src = seq!['"'] + escape_all(s) + seq!['"'];
            crate::lexer::string_tok(src, crate::lexer::initial_state(), line) == Ok::<
                (crate::lexer::TokenView, crate::lexer::LexState),
                Seq<char>,
            >(
                (
                    crate::lexer::TokenView {
                        kind: crate::lexer::TokenKind::String,
                        lexeme: src,
                        literal: Some(crate::lexer::LitView::Str(s)),
                        span: crate::lexer::span_of(0, crate::lexer::offset(src, src.len() as int)),
                        line: line as u32,
                    },
                    crate::lexer::LexState { at: src.len() as int, ..crate::lexer::initial_state() },
                ),
            )
        }),
{
    let e = escape_all(s);
    let src = seq!['"'] + e + seq!['"'];
    let q: int = 1 + e.len() as int;
    assert(src.subrange(1, q) =~= e);
    lemma_close_escaped(src, 1, s);
    let sp = crate::lexer::span_of(crate::lexer::offset(src, 0), crate::lexer::offset(src, q + 1));
    lemma_cook_escaped(src, q, 1, s, seq![], seq![], sp, line as u32);
    assert(seq![] + s =~= s);
    assert(src.subrange(0, q + 1) =~= src);
    assert(src.take(0) =~= Seq::<char>::empty());
}

/// A string written out by `basil_string_literal` is read back by the lexer as a single
/// string token whose value is that string and whose text is the whole literal,
/// followed by the end of input, as long as the string holds no `#{` (which the lexer
/// takes for an interpolation).
pub proof fn law_string_literal_lexes_back(s: Seq<char>)
    requires
        no_interpolation(s),
    ensures
        ({
            let src = seq!['"'] + escape_all(s) + seq!['"'];
            crate::lexer::tokens_of(src) matches Ok(ts) && ts.len() == 2 && ts[0].kind
                == crate::lexer::TokenKind::String && ts[0].literal == Some(crate::lexer::LitView::Str(s))
                && ts[0].lexeme == src && ts[1].kind == crate::lexer::TokenKind::Eof
        }),
{
    let src = seq!['"'] + escape_all(s) + seq!['"'];
    let st0 = crate::lexer::initial_state();
    let line = crate::lexer::line_at(src, 0);
    lemma_string_tok_escaped(s, line);
    assert(src[0] == '"');
    assert(crate::lexer::skip_from(src, 0, false, 0, false) == (0int, false));
    let r = crate::lexer::string_tok(src, st0, line);
    let t = r->Ok_0.0;
    let st = r->Ok_0.1;
    assert(crate::lexer::scan(src, st0, line) == r);
    let st2 = crate::lexer::adjust(st, t.kind);
    assert(crate::lexer::next_tok(src, st0) == Ok::<(crate::lexer::TokenView, crate::lexer::LexState), Seq<char>>((t, st2)));
    assert(st2.pending.len() == 0);
    assert(crate::lexer::skip_from(src, src.len() as int, st2.nl_semi, st2.depth, st2.cont) == (src.len() as int, st2.nl_semi));
    let nt = crate::lexer::next_tok(src, st2);
    assert(nt is Ok && nt->Ok_0.0.kind == crate::lexer::TokenKind::Eof);
    assert(crate::lexer::tokens_from(src, st2) == Ok::<Seq<crate::lexer::TokenView>, Seq<char>>(seq![nt->Ok_0.0]));
    assert(crate::lexer::further(src, st0, st2));
    assert(crate::lexer::tokens_from(src, st0) == Ok::<Seq<crate::lexer::TokenView>, Seq<char>>(seq![t] + seq![nt->Ok_0.0]));
}

// ---------------------------------------------------------------------
// String functions of templates (counted in characters)

/// `LEFT(s, n)`: the first `n` characters (none when `n` is not positive).
pub open spec fn left_seq(s: Seq<char>, n: int) -> Seq<char> {
    if n <= 0 { seq![] } else if n >= s.len() { s } else { s.take(n) }
}

/// `RIGHT(s, n)`: the last `n` characters (none when `n` is not positive).
pub open spec fn right_seq(s: Seq<char>, n: int) -> Seq<char> {
    if n <= 0 { seq![] } else if n >= s.len() { s } else { s.skip(s.len() - n) }
}

/// `LEFT(s, k)` followed by `RIGHT(s, n - k)`, where `n` is the length of `s`, gives
/// `s` back.
pub proof fn law_left_right_split(s: Seq<char>, k: int)
    requires
        0 <= k <= s.len(),
    ensures
        left_seq(s, k) + right_seq(s, s.len() - k) == s,
{
    if k == 0 {
        assert(Seq::<char>::empty() + s =~= s);
    } else if k == s.len() {
        assert(s + Seq::<char>::empty() =~= s);
    } else {
        assert(s.take(k) + s.skip(k) =~= s);
    }
}

/// `MID(s, start, len)`: `len` characters from the 1-based position `start`.
pub open spec fn mid_seq(s: Seq<char>, start1: int, len: int) -> Seq<char> {
    let start0 = if start1 <= 0 { 0 } else { start1 - 1 };
    if len <= 0 || start0 >= s.len() {
        seq![]
    } else if start0 + len >= s.len() {
        s.skip(start0)
    } else {
        s.subrange(start0, start0 + len)
    }
}

pub fn left_chars(s: &str, n: i64) -> (r: String)
    ensures
        r@ == left_seq(s@, n as int),
{
    let v = chars_of(s);
    if n <= 0 {
        return String::new();
    }
    let k: usize = if (n as u64) as u128 >= v.len() as u128 { v.len() } else { n as usize };
    assert(k == v.len() || k == n);
    let r = string_from_range(&v, 0, k);
    assert(v@.subrange(0, k as int) =~= left_seq(s@, n as int));
    r
}

pub fn right_chars(s: &str, n: i64) -> (r: String)
    ensures
        r@ == right_seq(s@, n as int),
{
    let v = chars_of(s);
    if n <= 0 {
        return String::new();
    }
    let k: usize = if (n as u64) as u128 >= v.len() as u128 { v.len() } else { n as usize };
    let r = string_from_range(&v, v.len() - k, v.len());
    assert(v@.subrange(v.len() - k, v@.len() as int) =~= right_seq(s@, n as int));
    r
}

pub fn mid_chars(s: &str, start1: i64, len: i64) -> (r: String)
    ensures
        r@ == mid_seq(s@, start1 as int, len as int),
{
    let v = chars_of(s);
    if len <= 0 {
        return String::new();
    }
    let start0: u64 = if start1 <= 0 { 0 } else { (start1 - 1) as u64 };
    if start0 as u128 >= v.len() as u128 {
        return String::new();
    }
    let a = start0 as usize;
    let b: usize = if (start0 as u128) + (len as u128) >= v.len() as u128 { v.len() } else { a + len as usize };
    let r = string_from_range(&v, a, b);
    assert(v@.subrange(a as int, b as int) =~= mid_seq(s@, start1 as int, len as int));
    r
}

/// Line and column (both from 1) after the characters of `s`; a carriage return
/// takes no column.
pub open spec fn line_col_after(s: Seq<char>) -> (int, int)
    decreases s.len(),
{
    if s.len() == 0 {
        (1, 1)
    } else {
        let (l, c) = line_col_after(s.drop_last());
        if s.last() == '\n' {
            (l + 1, 1)
        } else if s.last() == '\r' {
            (l, c)
        } else {
            (l, c + 1)
        }
    }
}

proof fn lemma_line_col_bound(s: Seq<char>)
    ensures
        1 <= line_col_after(s).0,
        1 <= line_col_after(s).1,
        line_col_after(s).0 + line_col_after(s).1 <= s.len() + 2,
    decreases s.len(),
{
    if s.len() > 0 {
        lemma_line_col_bound(s.drop_last());
    }
}

/// How many characters of `s`, from the `k`-th on, start before byte offset `pos`,
/// added to `k`.
pub open spec fn chars_before_from(s: Seq<char>, pos: int, k: int) -> int
    decreases s.len() - k,
{
    if k < 0 || k >= s.len() {
        s.len() as int
    } else if crate::lexer::offset(s, k) >= pos {
        k
    } else {
        chars_before_from(s, pos, k + 1)
    }
}

/// How many characters of `s` start before byte offset `pos`.
pub open spec fn chars_before(s: Seq<char>, pos: int) -> int {
    chars_before_from(s, pos, 0)
}

/// Line and column of byte offset `pos` of `s`: the line and column after the
/// characters that start before it.
pub fn line_col(s: &str, pos: usize) -> (r: (usize, usize))
    requires
        s@.len() <= isize::MAX,
    ensures
        (r.0 as int, r.1 as int) == line_col_after(s@.take(chars_before(s@, pos as int))),
{
    let v = chars_of(s);
    let mut line: usize = 1;
    let mut col: usize = 1;
    let mut i: usize = 0;
    let mut off: u128 = 0;
    assert(v@.take(0) =~= Seq::<char>::empty());
    while i < v.len() && off < pos as u128
        invariant
            i <= v.len(),
            v@ == s@,
            v@.len() <= isize::MAX,
            off as int == crate::lexer::offset(v@, i as int),
            chars_before(v@, pos as int) == chars_before_from(v@, pos as int, i as int),
            (line as int, col as int) == line_col_after(v@.take(i as int)),
        decreases v.len() - i,
    {
        proof {
            lemma_line_col_bound(v@.take(i as int));
            crate::lexer::lemma_offset_step(v@, i as int);
        }
        let ch = v[i];
        assert(v@.take(i + 1).drop_last() =~= v@.take(i as int));
        if ch == '\n' {
            line += 1;
            col = 1;
        } else if ch != '\r' {
            col += 1;
        }
        off = off + crate::lexer::char_width(ch) as u128;
        i += 1;
    }
    (line, col)
}

/// The error of a template, reported at the line and column of position `pos`.
pub open spec fn template_error_message(template: Seq<char>, pos: int, msg: Seq<char>) -> Seq<char> {
    let (l, c) = line_col_after(template.take(chars_before(template, pos)));
    "RENDER$ error at template "@ + decimal(l as nat) + ":"@ + decimal(c as nat) + ": "@ + msg
}

/// `err`, reported at the line and column of position `pos` of the template.
pub fn wrap_tmpl_error(template: &str, pos: usize, err: &BasilError) -> (e: BasilError)
    requires
        template@.len() <= isize::MAX,
    ensures
        e.0@ == template_error_message(template@, pos as int, err.0@),
{
    let (line, col) = line_col(template, pos);
    let mut m = string_of("RENDER$ error at template ");
    push_decimal(&mut m, line as u64);
    push_str(&mut m, ":");
    push_decimal(&mut m, col as u64);
    push_str(&mut m, ": ");
    push_str(&mut m, err.0.as_str());
    BasilError(m)
}

} // verus!
