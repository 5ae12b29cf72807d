use vstd::prelude::*;

use crate::text::{char_of, push_char, string_of};

verus! {

// ---------------------------------------------------------------------
// Form encoding (application/x-www-form-urlencoded)

/// The value of a hexadecimal digit byte.
pub open spec fn hex_digit(b: u8) -> Option<u8> {
    if 48 <= b <= 57 {
        Some((b - 48) as u8)
    } else if 65 <= b <= 70 {
        Some((b - 55) as u8)
    } else if 97 <= b <= 102 {
        Some((b - 87) as u8)
    } else {
        None
    }
}

/// What `u8::from_str_radix` gives for the two characters `h1 h2` in base 16: two hex
/// digits, or a `+` sign and one digit.
pub open spec fn hex_pair(h1: u8, h2: u8) -> Option<u8> {
    match (hex_digit(h1), hex_digit(h2)) {
        (Some(a), Some(b)) => Some((a * 16 + b) as u8),
        (None, Some(b)) => if h1 == 43 { Some(b) } else { None },
        _ => None,
    }
}

/// The characters that the form bytes from `i` on decode to: `+` is a space, `%XY` the
/// byte `XY`, and every other byte the character with that code.
pub open spec fn form_decode_from(b: Seq<u8>, i: int) -> Seq<char>
    decreases b.len() - i,
{
    if i < 0 || i >= b.len() {
        seq![]
    } else if b[i] == 43 {
        seq![' '] + form_decode_from(b, i + 1)
    } else if b[i] == 37 && i + 2 < b.len() && hex_pair(b[i + 1], b[i + 2]) is Some {
        seq![(hex_pair(b[i + 1], b[i + 2])->0 as u32) as char] + form_decode_from(b, i + 3)
    } else {
        seq![(b[i] as u32) as char] + form_decode_from(b, i + 1)
    }
}

fn hex_value(b: u8) -> (r: Option<u8>)
    ensures
        r == hex_digit(b),
{
    if 48 <= b && b <= 57 {
        Some(b - 48)
    } else if 65 <= b && b <= 70 {
        Some(b - 55)
    } else if 97 <= b && b <= 102 {
        Some(b - 87)
    } else {
        None
    }
}

fn hex_pair_value(h1: u8, h2: u8) -> (r: Option<u8>)
    ensures
        r == hex_pair(h1, h2),
{
    match (hex_value(h1), hex_value(h2)) {
        (Some(a), Some(b)) => Some(a * 16 + b),
        (None, Some(b)) => if h1 == 43 { Some(b) } else { None },
        _ => None,
    }
}

/// Decodes the form bytes `b`.
fn form_decode_bytes(b: &[u8]) -> (r: String)
    ensures
        r@ == form_decode_from(b@, 0),
{
    let mut out = String::new();
    let mut i: usize = 0;
    while i < b.len()
        invariant
            i <= b@.len(),
            out@ + form_decode_from(b@, i as int) == form_decode_from(b@, 0),
        decreases b.len() - i,
    {
        let ghost o = out@;
        let c = b[i];
        if c == 43 {
            push_char(&mut out, ' ');
            assert(o + form_decode_from(b@, i as int) =~= out@ + form_decode_from(b@, i + 1));
            i += 1;
        } else if c == 37 && b.len() - i > 2 && hex_pair_value(b[i + 1], b[i + 2]).is_some() {
            let v = hex_pair_value(b[i + 1], b[i + 2]).unwrap();
            push_char(&mut out, char_of(v));
            assert(o + form_decode_from(b@, i as int) =~= out@ + form_decode_from(b@, i + 3));
            i += 3;
        } else {
            push_char(&mut out, char_of(c));
            assert(o + form_decode_from(b@, i as int) =~= out@ + form_decode_from(b@, i + 1));
            i += 1;
        }
    }
    assert(out@ + form_decode_from(b@, i as int) =~= out@);
    out
}

/// Decodes a form-encoded string (its UTF-8 bytes, each read as one character).
pub fn url_decode_form(s: &str) -> (r: String)
    ensures
        r@ == form_decode_from(vstd::utf8::encode_utf8(s@), 0),
{
    form_decode_bytes(s.as_bytes())
}

/// A byte that stands for itself in a form: letters, digits and `-_.~`.
pub open spec fn unreserved(b: u8) -> bool {
    (65 <= b <= 90) || (97 <= b <= 122) || (48 <= b <= 57) || b == 45 || b == 95 || b == 46 || b == 126
}

/// The upper-case hexadecimal digit of a value below 16.
pub open spec fn hex_char(v: u8) -> char {
    if v < 10 { ((v + 48) as u32) as char } else { ((v + 55) as u32) as char }
}

/// How one byte is written in a form.
pub open spec fn form_byte(b: u8) -> Seq<char> {
    if unreserved(b) {
        seq![(b as u32) as char]
    } else if b == 32 {
        seq!['+']
    } else {
        seq!['%', hex_char(b / 16), hex_char(b % 16)]
    }
}

pub open spec fn form_encode(b: Seq<u8>) -> Seq<char>
    decreases b.len(),
{
    if b.len() == 0 {
        seq![]
    } else {
        form_encode(b.drop_last()) + form_byte(b.last())
    }
}

fn hex_upper(v: u8) -> (c: char)
    requires
        v < 16,
    ensures
        c == hex_char(v),
{
    if v < 10 { char_of(v + 48) } else { char_of(v + 55) }
}

/// Encodes a string for a form: unreserved bytes as they are, a space as `+`,
/// every other byte as `%XY` in upper-case hexadecimal.
pub fn url_encode_form(s: &str) -> (r: String)
    ensures
        r@ == form_encode(vstd::utf8::encode_utf8(s@)),
{
    let b = s.as_bytes();
    let mut out = String::new();
    let mut i: usize = 0;
    while i < b.len()
        invariant
            i <= b@.len(),
            b@ == vstd::utf8::encode_utf8(s@),
            out@ == form_encode(b@.take(i as int)),
        decreases b.len() - i,
    {
        let c = b[i];
        let ghost o = out@;
        let keep = (65 <= c && c <= 90) || (97 <= c && c <= 122) || (48 <= c && c <= 57) || c == 45 || c == 95
            || c == 46 || c == 126;
        if keep {
            push_char(&mut out, char_of(c));
        } else if c == 32 {
            push_char(&mut out, '+');
        } else {
            push_char(&mut out, '%');
            push_char(&mut out, hex_upper(c / 16));
            push_char(&mut out, hex_upper(c % 16));
        }
        assert(b@.take(i + 1).drop_last() =~= b@.take(i as int));
        assert(out@ =~= o + form_byte(c));
        i += 1;
    }
    assert(b@.take(b@.len() as int) =~= b@);
    out
}

/// The code of each character, as a byte.
pub open spec fn char_bytes(cs: Seq<char>) -> Seq<u8> {
    cs.map_values(|c: char| c as u8)
}

/// Each byte read as the character with that code.
pub open spec fn byte_chars(b: Seq<u8>) -> Seq<char> {
    b.map_values(|x: u8| (x as u32) as char)
}

proof fn lemma_form_encode_front(b: Seq<u8>)
    requires
        b.len() > 0,
    ensures
        form_encode(b) == form_byte(b[0]) + form_encode(b.drop_first()),
    decreases b.len(),
{
    if b.len() == 1 {
        assert(form_encode(b.drop_last()) =~= Seq::<char>::empty());
        assert(form_encode(b.drop_first()) =~= Seq::<char>::empty());
        assert(b.last() == b[0]);
        assert(form_encode(b) =~= form_byte(b[0]) + form_encode(b.drop_first()));
    } else {
        lemma_form_encode_front(b.drop_last());
        assert(b.drop_first().drop_last() =~= b.drop_last().drop_first());
        assert(b.drop_first().last() == b.last());
        assert(b.drop_last()[0] == b[0]);
        assert(form_encode(b.drop_first()) == form_encode(b.drop_first().drop_last()) + form_byte(
            b.drop_first().last(),
        ));
        assert(form_encode(b) =~= form_byte(b[0]) + form_encode(b.drop_first()));
    }
}

/// Decoding from a position depends only on the bytes from there on.
proof fn lemma_decode_suffix(x: Seq<u8>, i: int, y: Seq<u8>, j: int)
    requires
        0 <= i <= x.len(),
        0 <= j <= y.len(),
        x.skip(i) == y.skip(j),
    ensures
        form_decode_from(x, i) == form_decode_from(y, j),
    decreases x.len() - i,
{
    assert(x.len() - i == y.len() - j) by {
        assert(x.skip(i).len() == y.skip(j).len());
    }
    if i < x.len() {
        assert(x[i] == x.skip(i)[0] && y[j] == y.skip(j)[0]);
        if i + 2 < x.len() {
            assert(x[i + 1] == x.skip(i)[1] && y[j + 1] == y.skip(j)[1]);
            assert(x[i + 2] == x.skip(i)[2] && y[j + 2] == y.skip(j)[2]);
            assert(x.skip(i + 3) =~= x.skip(i).skip(3));
            assert(y.skip(j + 3) =~= y.skip(j).skip(3));
            lemma_decode_suffix(x, i + 3, y, j + 3);
        }
        assert(x.skip(i + 1) =~= x.skip(i).skip(1));
        assert(y.skip(j + 1) =~= y.skip(j).skip(1));
        lemma_decode_suffix(x, i + 1, y, j + 1);
    }
}

proof fn lemma_byte_char(c: u8)
    requires
        c < 128,
    ensures
        ((c as u32) as char) as u8 == c,
        (((c as u32) as char) as u32) < 128,
{
}

proof fn lemma_hex_char_digit(v: u8)
    requires
        v < 16,
    ensures
        hex_digit(hex_char(v) as u8) == Some(v),
        (hex_char(v) as u32) < 128,
{
    if v < 10 {
        lemma_byte_char((v + 48) as u8);
    } else {
        lemma_byte_char((v + 55) as u8);
    }
}

proof fn lemma_decode_first_char(x: Seq<u8>, c: u8)
    requires
        x.len() >= 1,
        x[0] == c,
        c != 43,
        c != 37,
    ensures
        form_decode_from(x, 0) == seq![(c as u32) as char] + form_decode_from(x, 1),
{
}

proof fn lemma_decode_first_escape(x: Seq<u8>, c: u8)
    requires
        x.len() >= 3,
        x[0] == 37,
        hex_pair(x[1], x[2]) == Some(c),
    ensures
        form_decode_from(x, 0) == seq![(c as u32) as char] + form_decode_from(x, 3),
{
}

proof fn lemma_hex_split(c: u8)
    ensures
        ((c / 16) as u8) * 16 + ((c % 16) as u8) == c,
        c / 16 < 16,
{
}

/// The form text of one byte, followed by anything, decodes to that byte's character
/// first.
#[verifier::spinoff_prover]
proof fn lemma_form_byte_decodes(c: u8, rest: Seq<u8>)
    ensures
        form_decode_from(char_bytes(form_byte(c)) + rest, 0) == seq![(c as u32) as char] + form_decode_from(
            rest,
            0,
        ),
{
    let fb = form_byte(c);
    let x = char_bytes(fb) + rest;
    let n = fb.len() as int;
    assert(x.skip(n) =~= rest);
    assert(rest.skip(0) =~= rest);
    lemma_decode_suffix(x, n, rest, 0);
    if unreserved(c) {
        lemma_byte_char(c);
        assert(x[0] == c);
        lemma_decode_first_char(x, c);
    } else if c == 32 {
        assert(x[0] == 43);
        assert(((c as u32) as char) == ' ');
    } else {
        let hi = (c / 16) as u8;
        let lo = (c % 16) as u8;
        lemma_hex_split(c);
        lemma_hex_char_digit(hi);
        lemma_hex_char_digit(lo);
        assert(x[0] == 37);
        assert(x[1] == hex_char(hi) as u8);
        assert(x[2] == hex_char(lo) as u8);
        assert(hex_pair(x[1], x[2]) == Some(c));
        lemma_decode_first_escape(x, c);
    }
}

proof fn lemma_decode_encoded(b: Seq<u8>, rest: Seq<u8>)
    ensures
        form_decode_from(char_bytes(form_encode(b)) + rest, 0) == byte_chars(b) + form_decode_from(rest, 0),
    decreases b.len(),
{
    if b.len() == 0 {
        assert(char_bytes(form_encode(b)) + rest =~= rest);
        assert(byte_chars(b) + form_decode_from(rest, 0) =~= form_decode_from(rest, 0));
    } else {
        lemma_form_encode_front(b);
        let b1 = b.drop_first();
        let tail = char_bytes(form_encode(b1)) + rest;
        assert(char_bytes(form_encode(b)) + rest =~= char_bytes(form_byte(b[0])) + tail);
        lemma_form_byte_decodes(b[0], tail);
        lemma_decode_encoded(b1, rest);
        assert(byte_chars(b) =~= seq![(b[0] as u32) as char] + byte_chars(b1));
        assert(byte_chars(b) + form_decode_from(rest, 0) =~= seq![(b[0] as u32) as char] + (byte_chars(b1)
            + form_decode_from(rest, 0)));
    }
}

proof fn lemma_form_encode_ascii(b: Seq<u8>)
    ensures
        vstd::utf8::is_ascii_chars(form_encode(b)),
    decreases b.len(),
{
    if b.len() > 0 {
        lemma_form_encode_ascii(b.drop_last());
        let c = b.last();
        if !unreserved(c) && c != 32 {
            lemma_hex_char_digit((c / 16) as u8);
            lemma_hex_char_digit((c % 16) as u8);
        }
        let fb = form_byte(c);
        assert(vstd::utf8::is_ascii_chars(fb));
        let e = form_encode(b.drop_last()) + fb;
        assert forall|i: int| 0 <= i < e.len() implies '\0' <= #[trigger] e[i] <= '\u{7f}' by {
            if i < form_encode(b.drop_last()).len() {
                assert(e[i] == form_encode(b.drop_last())[i]);
            } else {
                assert(e[i] == fb[i - form_encode(b.drop_last()).len()]);
            }
        }
    }
}

/// Decoding what `url_encode_form` writes gives the text back, when the text is ASCII.
pub proof fn law_form_decode_undoes_encode(s: Seq<char>)
    requires
        vstd::utf8::is_ascii_chars(s),
    ensures
        form_decode_from(vstd::utf8::encode_utf8(form_encode(vstd::utf8::encode_utf8(s))), 0) == s,
{
    let b = vstd::utf8::encode_utf8(s);
    let e = form_encode(b);
    vstd::utf8::is_ascii_chars_encode_utf8(s);
    lemma_form_encode_ascii(b);
    vstd::utf8::is_ascii_chars_encode_utf8(e);
    assert(vstd::utf8::encode_utf8(e) =~= char_bytes(e));
    lemma_decode_encoded(b, seq![]);
    assert(char_bytes(e) + Seq::<u8>::empty() =~= char_bytes(e));
    assert forall|i: int| 0 <= i < s.len() implies #[trigger] byte_chars(b)[i] == s[i] by {
        assert(b[i] == s[i] as u8);
    }
    assert(byte_chars(b) + form_decode_from(Seq::<u8>::empty(), 0) =~= s);
}

// ---------------------------------------------------------------------
// Query strings

/// The length of the run of bytes from `i` on that are not `stop`.
pub open spec fn until(b: Seq<u8>, i: int, stop: u8) -> int
    decreases b.len() - i,
{
    if i < 0 || i >= b.len() || b[i] == stop {
        0
    } else {
        1 + until(b, i + 1, stop)
    }
}

/// One `key=value` part, decoded and written back as `key=value` (an absent `=`
/// gives an empty value).
pub open spec fn decoded_pair(part: Seq<u8>) -> Seq<char> {
    let k = until(part, 0, 61);
    if k < part.len() {
        form_decode_from(part.take(k), 0) + seq!['='] + form_decode_from(part.skip(k + 1), 0)
    } else {
        form_decode_from(part, 0) + seq!['=']
    }
}

/// The decoded pairs of the `&`-separated parts of `b` from `i` on; empty parts are skipped.
pub open spec fn pairs_from(b: Seq<u8>, i: int) -> Seq<Seq<char>>
    decreases b.len() - i,
{
    if i < 0 || i > b.len() {
        seq![]
    } else {
        proof {
            lemma_until_bounds(b, i, 38);
        }
        let e = i + until(b, i, 38);
        let part = b.subrange(i, e);
        (if part.len() > 0 { seq![decoded_pair(part)] } else { seq![] }) + (if e < b.len() {
            pairs_from(b, e + 1)
        } else {
            seq![]
        })
    }
}

pub proof fn lemma_until_bounds(b: Seq<u8>, i: int, stop: u8)
    ensures
        0 <= until(b, i, stop),
        0 <= i <= b.len() ==> i + until(b, i, stop) <= b.len(),
    decreases b.len() - i,
{
    if 0 <= i < b.len() && b[i] != stop {
        lemma_until_bounds(b, i + 1, stop);
    }
}

proof fn lemma_until(b: Seq<u8>, i: int, stop: u8, e: int)
    requires
        0 <= i <= e <= b.len(),
        e < b.len() ==> b[e] == stop,
        forall|k: int| i <= k < e ==> b[k] != stop,
    ensures
        until(b, i, stop) == e - i,
    decreases e - i,
{
    if i < e {
        lemma_until(b, i + 1, stop, e);
    }
}

proof fn lemma_until_shift(b: Seq<u8>, a: int, e: int, k: int, stop: u8)
    requires
        0 <= a <= a + k <= e <= b.len(),
        a + k < e ==> b[a + k] == stop,
        forall|m: int| a <= m < a + k ==> b[m] != stop,
    ensures
        until(b.subrange(a, e), 0, stop) == k,
{
    let part = b.subrange(a, e);
    assert forall|m: int| 0 <= m < k implies part[m] != stop by {
        assert(part[m] == b[a + m]);
    }
    if k < part.len() {
        assert(part[k] == b[a + k]);
    }
    lemma_until(part, 0, stop, k);
}

fn decode_range(b: &[u8], a: usize, e: usize) -> (r: String)
    requires
        a <= e <= b@.len(),
    ensures
        r@ == form_decode_from(b@.subrange(a as int, e as int), 0),
{
    let mut v: Vec<u8> = Vec::new();
    let mut k = a;
    while k < e
        invariant
            a <= k <= e <= b@.len(),
            v@ == b@.subrange(a as int, k as int),
        decreases e - k,
    {
        v.push(b[k]);
        assert(b@.subrange(a as int, k + 1) =~= b@.subrange(a as int, k as int).push(b@[k as int]));
        k += 1;
    }
    form_decode_bytes(v.as_slice())
}

pub open spec fn strings_of(v: Seq<String>) -> Seq<Seq<char>> {
    v.map_values(|x: String| x@)
}

/// The decoded `key=value` pairs of a query string or form body.
pub fn parse_pairs(s: &str) -> (r: Vec<String>)
    ensures
        strings_of(r@) == pairs_from(vstd::utf8::encode_utf8(s@), 0),
{
    let b = s.as_bytes();
    let mut out: Vec<String> = Vec::new();
    let mut i: usize = 0;
    loop
        invariant_except_break
            strings_of(out@) + pairs_from(b@, i as int) == pairs_from(b@, 0),
        invariant
            i <= b@.len(),
            b@ == vstd::utf8::encode_utf8(s@),
        ensures
            strings_of(out@) == pairs_from(b@, 0),
        decreases b@.len() - i,
    {
        let mut e = i;
        while e < b.len() && b[e] != 38
            invariant
                i <= e <= b@.len(),
                forall|k: int| i <= k < e ==> b@[k] != 38,
            decreases b@.len() - e,
        {
            e += 1;
        }
        proof { lemma_until(b@, i as int, 38, e as int); }
        let ghost before = strings_of(out@);
        let ghost part = b@.subrange(i as int, e as int);
        if e > i {
            let mut k = i;
            while k < e && b[k] != 61
                invariant
                    i <= k <= e <= b@.len(),
                    forall|m: int| i <= m < k ==> b@[m] != 61,
                decreases e - k,
            {
                k += 1;
            }
            proof { lemma_until_shift(b@, i as int, e as int, k - i, 61); }
            let mut pair = if k < e {
                let mut p = decode_range(b, i, k);
                push_char(&mut p, '=');
                let v = decode_range(b, k + 1, e);
                crate::text::push_str(&mut p, v.as_str());
                assert(part.take(k - i) =~= b@.subrange(i as int, k as int));
                assert(part.skip(k - i + 1) =~= b@.subrange(k + 1, e as int));
                p
            } else {
                let mut p = decode_range(b, i, e);
                push_char(&mut p, '=');
                p
            };
            assert(pair@ == decoded_pair(part));
            out.push(pair);
            assert(strings_of(out@) =~= before.push(decoded_pair(part)));
        }
        if e == b.len() {
            assert(strings_of(out@) =~= pairs_from(b@, 0));
            break;
        }
        assert(strings_of(out@) + pairs_from(b@, e + 1) =~= before + pairs_from(b@, i as int));
        i = e + 1;
    }
    out
}

// ---------------------------------------------------------------------
// File-name patterns

pub open spec fn fold_byte(b: u8, ci: bool) -> u8 {
    if ci && 65 <= b <= 90 { (b + 32) as u8 } else { b }
}

/// `p` matches all of `s`: `*` matches any run of bytes, `?` any one byte, every other
/// byte itself (ignoring ASCII case when `ci`).
pub open spec fn glob(p: Seq<u8>, s: Seq<u8>, ci: bool) -> bool
    decreases p.len(), 0int, 0int,
{
    if p.len() == 0 {
        s.len() == 0
    } else if p[0] == 42 {
        glob_star(p.drop_first(), s, 0, ci)
    } else if p[0] == 63 {
        s.len() > 0 && glob(p.drop_first(), s.drop_first(), ci)
    } else {
        s.len() > 0 && fold_byte(p[0], ci) == fold_byte(s[0], ci) && glob(p.drop_first(), s.drop_first(), ci)
    }
}

/// `p` matches `s` with at least its first `i` bytes skipped.
pub open spec fn glob_star(p: Seq<u8>, s: Seq<u8>, i: int, ci: bool) -> bool
    decreases p.len(), 1int, s.len() + 1 - i,
{
    if i < 0 || i > s.len() {
        false
    } else {
        glob(p, s.skip(i), ci) || glob_star(p, s, i + 1, ci)
    }
}

fn fold(b: u8, ci: bool) -> (r: u8)
    ensures
        r == fold_byte(b, ci),
{
    if ci && 65 <= b && b <= 90 { b + 32 } else { b }
}

fn glob_at(p: &[u8], pi: usize, s: &[u8], si: usize, ci: bool) -> (r: bool)
    requires
        pi <= p@.len(),
        si <= s@.len(),
    ensures
        r == glob(p@.skip(pi as int), s@.skip(si as int), ci),
    decreases p@.len() - pi,
{
    let ghost ps = p@.skip(pi as int);
    let ghost ss = s@.skip(si as int);
    if pi == p.len() {
        return si == s.len();
    }
    assert(ps.drop_first() =~= p@.skip(pi + 1));
    let c = p[pi];
    assert(ps[0] == c);
    if c == 42 {
        assert(glob(ps, ss, ci) == glob_star(ps.drop_first(), ss, 0, ci));
        let mut i = si;
        while i <= s.len()
            invariant
                si <= i <= s@.len() + 1,
                pi < p.len(),
                ps == p@.skip(pi as int),
                ss == s@.skip(si as int),
                ps.drop_first() == p@.skip(pi + 1),
                glob(ps, ss, ci) == glob_star(ps.drop_first(), ss, 0, ci),
                glob_star(ps.drop_first(), ss, 0, ci) == glob_star(ps.drop_first(), ss, i - si, ci),
            decreases s@.len() + 1 - i,
        {
            assert(ss.skip(i - si) =~= s@.skip(i as int));
            if glob_at(p, pi + 1, s, i, ci) {
                return true;
            }
            if i == s.len() {
                assert(!glob_star(ps.drop_first(), ss, i - si + 1, ci));
                return false;
            }
            i += 1;
        }
        false
    } else if c == 63 {
        if si == s.len() {
            return false;
        }
        assert(ss.drop_first() =~= s@.skip(si + 1));
        glob_at(p, pi + 1, s, si + 1, ci)
    } else {
        if si == s.len() {
            return false;
        }
        if fold(c, ci) != fold(s[si], ci) {
            return false;
        }
        assert(ss.drop_first() =~= s@.skip(si + 1));
        glob_at(p, pi + 1, s, si + 1, ci)
    }
}

/// Whether the file name `name` matches the pattern `pat`; letters compare without
/// regard to case when `case_insensitive` (as on Windows).
pub fn glob_match_simple(pat: &str, name: &str, case_insensitive: bool) -> (r: bool)
    ensures
        r == glob(vstd::utf8::encode_utf8(pat@), vstd::utf8::encode_utf8(name@), case_insensitive),
{
    let p = pat.as_bytes();
    let s = name.as_bytes();
    assert(p@.skip(0) =~= p@);
    assert(s@.skip(0) =~= s@);
    glob_at(p, 0, s, 0, case_insensitive)
}

} // verus!
