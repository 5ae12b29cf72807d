use vstd::prelude::*;

use crate::order::{contains_str, lemma_sorted_unique, seq_less, strictly_sorted, to_set, views};
use crate::text::{
    chars_of, contains_seq, find_from, lower_range, lower_seq, matches_at, starts_with, str_contains, str_eq,
    string_of, trim, trim_bounds,
};

verus! {

// ---------------------------------------------------------------------
// The optional runtime features of a compiled program

/// The runtime feature that an object name (`obj-audio` ...) selects, with its crate.
pub open spec fn obj_feature(obj: Seq<char>) -> Option<(Seq<char>, Seq<char>)> {
    if obj == "obj-audio"@ {
        Some(("audio"@, "basil-obj-audio"@))
    } else if obj == "obj-midi"@ {
        Some(("midi"@, "basil-obj-midi"@))
    } else if obj == "obj-daw"@ {
        Some(("daw"@, "basil-obj-daw"@))
    } else if obj == "obj-term"@ {
        Some(("term"@, "basil-obj-term"@))
    } else {
        None
    }
}

/// The crate that provides a runtime feature.
pub open spec fn feature_crate(rt: Seq<char>) -> Option<Seq<char>> {
    if rt == "audio"@ {
        Some("basil-obj-audio"@)
    } else if rt == "midi"@ {
        Some("basil-obj-midi"@)
    } else if rt == "daw"@ {
        Some("basil-obj-daw"@)
    } else if rt == "term"@ {
        Some("basil-obj-term"@)
    } else {
        None
    }
}

/// The crates of the known features among `rt`, in the order of `rt`.
pub open spec fn crates_of(rt: Seq<Seq<char>>) -> Seq<Seq<char>>
    decreases rt.len(),
{
    if rt.len() == 0 {
        seq![]
    } else {
        crates_of(rt.drop_last()) + match feature_crate(rt.last()) {
            Some(c) => seq![c],
            None => seq![],
        }
    }
}

/// The crates that provide the features `rt`, in order; unknown features are skipped.
pub fn map_rt_to_crates(rt: &Vec<String>) -> (v: Vec<String>)
    ensures
        views(v@) == crates_of(views(rt@)),
{
    let mut v: Vec<String> = Vec::new();
    let mut i: usize = 0;
    while i < rt.len()
        invariant
            i <= rt.len(),
            views(v@) == crates_of(views(rt@).take(i as int)),
        decreases rt.len() - i,
    {
        let r = rt[i].as_str();
        let ghost before = views(v@);
        assert(views(rt@).take(i + 1).drop_last() =~= views(rt@).take(i as int));
        assert(views(rt@).take(i + 1).last() == r@);
        if str_eq(r, "audio") {
            v.push(string_of("basil-obj-audio"));
        } else if str_eq(r, "midi") {
            v.push(string_of("basil-obj-midi"));
        } else if str_eq(r, "daw") {
            v.push(string_of("basil-obj-daw"));
        } else if str_eq(r, "term") {
            v.push(string_of("basil-obj-term"));
        }
        assert(views(v@) =~= crates_of(views(rt@).take(i + 1)));
        i += 1;
    }
    assert(views(rt@).take(rt.len() as int) =~= views(rt@));
    v
}

/// The runtime feature and crate that an object name selects.
pub fn map_obj_to_rt(obj: &str) -> (r: Option<(String, String)>)
    ensures
        match r {
            Some((a, b)) => obj_feature(obj@) == Some((a@, b@)),
            None => obj_feature(obj@) is None,
        },
{
    if str_eq(obj, "obj-audio") {
        Some((string_of("audio"), string_of("basil-obj-audio")))
    } else if str_eq(obj, "obj-midi") {
        Some((string_of("midi"), string_of("basil-obj-midi")))
    } else if str_eq(obj, "obj-daw") {
        Some((string_of("daw"), string_of("basil-obj-daw")))
    } else if str_eq(obj, "obj-term") {
        Some((string_of("term"), string_of("basil-obj-term")))
    } else {
        None
    }
}


// ---------------------------------------------------------------------
// Features that a source needs

/// Why a source cannot be built with the chosen features.
#[derive(Debug)]
pub struct MissingFeature {
    pub hint: String,
    pub required_obj: String,
    pub suggest_use: &'static str,
    pub cli_name: &'static str,
}

/// What is missing: hint, object name, `#USE` word and command-line name.
pub type MissingView = (Seq<char>, Seq<char>, Seq<char>, Seq<char>);

/// The first feature (AUDIO, MIDI, DAW, TERM in that order) whose symbols the source
/// uses while the feature is not selected.
pub open spec fn missing_of(src: Seq<char>, rt: Seq<Seq<char>>) -> Option<MissingView> {
    if contains_seq(src, "AUDIO_"@) && !rt.contains("audio"@) {
        Some(("AUDIO_* symbol"@, "obj-audio"@, "AUDIO"@, "audio"@))
    } else if contains_seq(src, "MIDI_"@) && !rt.contains("midi"@) {
        Some(("MIDI_* symbol"@, "obj-midi"@, "MIDI"@, "midi"@))
    } else if contains_seq(src, "DAW_"@) && !rt.contains("daw"@) {
        Some(("DAW_* symbol"@, "obj-daw"@, "DAW"@, "daw"@))
    } else if contains_seq(src, "TERM_"@) && !rt.contains("term"@) {
        Some(("TERM_* symbol"@, "obj-term"@, "TERM"@, "term"@))
    } else {
        None
    }
}

fn missing(hint: &str, obj: &str, suggest_use: &'static str, cli_name: &'static str) -> (m: MissingFeature)
    ensures
        (m.hint@, m.required_obj@, m.suggest_use@, m.cli_name@) == (hint@, obj@, suggest_use@, cli_name@),
{
    MissingFeature { hint: string_of(hint), required_obj: string_of(obj), suggest_use, cli_name }
}

/// The first feature that the source needs and `rt_features` lacks.
pub fn first_missing_required_feature(src: &str, rt_features: &Vec<String>) -> (r: Option<MissingFeature>)
    ensures
        match r {
            Some(m) => missing_of(src@, views(rt_features@)) == Some((m.hint@, m.required_obj@, m.suggest_use@, m.cli_name@)),
            None => missing_of(src@, views(rt_features@)) is None,
        },
{
    if str_contains(src, "AUDIO_") && !contains_str(rt_features, "audio") {
        return Some(missing("AUDIO_* symbol", "obj-audio", "AUDIO", "audio"));
    }
    if str_contains(src, "MIDI_") && !contains_str(rt_features, "midi") {
        return Some(missing("MIDI_* symbol", "obj-midi", "MIDI", "midi"));
    }
    if str_contains(src, "DAW_") && !contains_str(rt_features, "daw") {
        return Some(missing("DAW_* symbol", "obj-daw", "DAW", "daw"));
    }
    if str_contains(src, "TERM_") && !contains_str(rt_features, "term") {
        return Some(missing("TERM_* symbol", "obj-term", "TERM", "term"));
    }
    None
}

/// The length of the first line of `s` (up to its first newline).
pub open spec fn line_end(s: Seq<char>) -> nat
    decreases s.len(),
{
    if s.len() == 0 || s[0] == '\n' {
        0
    } else {
        1 + line_end(s.drop_first())
    }
}

/// A `#USE` line that names `f` (case-insensitively) after the directive.
pub open spec fn use_line_mentions(line: Seq<char>, f: Seq<char>) -> bool {
    let t = trim(line);
    starts_with(t, "#USE "@) && contains_seq(lower_seq(t.skip("#USE "@.len() as int)), f)
}

/// Some line of `s` is a `#USE` line that names `f`.
pub open spec fn use_mentions(s: Seq<char>, f: Seq<char>) -> bool
    decreases s.len(),
{
    let e = line_end(s);
    if e > s.len() {
        false
    } else {
        use_line_mentions(s.take(e as int), f) || (e < s.len() && use_mentions(s.skip((e + 1) as int), f))
    }
}

/// The source asks for feature `name`: a `#USE` line names it, or the source uses
/// one of its symbols (which start with `prefix`).
pub open spec fn detected(src: Seq<char>, name: Seq<char>, prefix: Seq<char>) -> bool {
    use_mentions(src, name) || contains_seq(src, prefix)
}

pub open spec fn if_detected(src: Seq<char>, name: Seq<char>, prefix: Seq<char>) -> Seq<Seq<char>> {
    if detected(src, name, prefix) { seq![name] } else { seq![] }
}

/// The features that a source asks for, sorted.
pub open spec fn detected_features(src: Seq<char>) -> Seq<Seq<char>> {
    if_detected(src, "audio"@, "AUDIO_"@) + if_detected(src, "daw"@, "DAW_"@) + if_detected(src, "midi"@, "MIDI_"@)
        + if_detected(src, "term"@, "TERM_"@)
}

proof fn lemma_line_end_bound(s: Seq<char>)
    ensures
        line_end(s) <= s.len(),
        line_end(s) < s.len() ==> s[line_end(s) as int] == '\n',
        forall|i: int| 0 <= i < line_end(s) ==> s[i] != '\n',
    decreases s.len(),
{
    if s.len() > 0 && s[0] != '\n' {
        lemma_line_end_bound(s.drop_first());
        assert forall|i: int| 0 <= i < line_end(s) implies s[i] != '\n' by {
            if i > 0 {
                assert(s[i] == s.drop_first()[i - 1]);
            }
        }
    }
}

proof fn lemma_line_end_is(s: Seq<char>, e: int)
    requires
        0 <= e <= s.len(),
        e < s.len() ==> s[e] == '\n',
        forall|i: int| 0 <= i < e ==> s[i] != '\n',
    ensures
        line_end(s) == e,
    decreases s.len(),
{
    if e > 0 {
        assert forall|i: int| 0 <= i < e - 1 implies s.drop_first()[i] != '\n' by {
            assert(s.drop_first()[i] == s[i + 1]);
        }
        lemma_line_end_is(s.drop_first(), e - 1);
    }
}

/// Whether `v[a..e]` is a `#USE` line that names `name`.
fn line_mentions(v: &Vec<char>, a: usize, e: usize, name: &Vec<char>) -> (r: bool)
    requires
        a <= e <= v.len(),
    ensures
        r == use_line_mentions(v@.subrange(a as int, e as int), name@),
{
    let (t0, t1) = trim_bounds(v, a, e);
    let ghost t = v@.subrange(t0 as int, t1 as int);
    let prefix = chars_of("#USE ");
    if t1 - t0 < prefix.len() {
        return false;
    }
    if !matches_at(v, &prefix, t0) {
        assert(t.take(prefix@.len() as int) =~= v@.subrange(t0 as int, t0 + prefix@.len()));
        return false;
    }
    assert(t.take(prefix@.len() as int) =~= v@.subrange(t0 as int, t0 + prefix@.len()));
    let lowered = lower_range(v, t0 + prefix.len(), t1);
    assert(t.skip(prefix@.len() as int) =~= v@.subrange(t0 + prefix@.len(), t1 as int));
    match find_from(&lowered, name, 0) {
        Some(_) => true,
        None => false,
    }
}

/// The features that a source asks for, sorted and without repeats.
pub fn autodetect_features(src: &str) -> (r: Vec<String>)
    ensures
        views(r@) == detected_features(src@),
{
    let v = chars_of(src);
    let audio = chars_of("audio");
    let daw = chars_of("daw");
    let midi = chars_of("midi");
    let term = chars_of("term");
    let mut u_audio = false;
    let mut u_daw = false;
    let mut u_midi = false;
    let mut u_term = false;
    let mut a: usize = 0;
    assert(v@.skip(0) =~= v@);
    loop
        invariant
            a <= v@.len(),
            v@ == src@,
            audio@ == "audio"@,
            daw@ == "daw"@,
            midi@ == "midi"@,
            term@ == "term"@,
            (u_audio || use_mentions(v@.skip(a as int), audio@)) == use_mentions(v@, audio@),
            (u_daw || use_mentions(v@.skip(a as int), daw@)) == use_mentions(v@, daw@),
            (u_midi || use_mentions(v@.skip(a as int), midi@)) == use_mentions(v@, midi@),
            (u_term || use_mentions(v@.skip(a as int), term@)) == use_mentions(v@, term@),
        ensures
            u_audio == use_mentions(v@, audio@),
            u_daw == use_mentions(v@, daw@),
            u_midi == use_mentions(v@, midi@),
            u_term == use_mentions(v@, term@),
        decreases v@.len() - a,
    {
        let mut e = a;
        while e < v.len() && v[e] != '\n'
            invariant
                a <= e <= v@.len(),
                forall|i: int| a <= i < e ==> v@[i] != '\n',
            decreases v@.len() - e,
        {
            e += 1;
        }
        let ghost rest = v@.skip(a as int);
        proof {
            lemma_line_end_is(rest, e - a);
            assert(rest.take(e - a) =~= v@.subrange(a as int, e as int));
            if e < v.len() {
                assert(rest.skip(e - a + 1) =~= v@.skip(e + 1));
            }
        }
        u_audio = u_audio || line_mentions(&v, a, e, &audio);
        u_daw = u_daw || line_mentions(&v, a, e, &daw);
        u_midi = u_midi || line_mentions(&v, a, e, &midi);
        u_term = u_term || line_mentions(&v, a, e, &term);
        if e == v.len() {
            break;
        }
        a = e + 1;
    }
    let mut r: Vec<String> = Vec::new();
    if u_audio || str_contains(src, "AUDIO_") {
        r.push(string_of("audio"));
    }
    if u_daw || str_contains(src, "DAW_") {
        r.push(string_of("daw"));
    }
    if u_midi || str_contains(src, "MIDI_") {
        r.push(string_of("midi"));
    }
    if u_term || str_contains(src, "TERM_") {
        r.push(string_of("term"));
    }
    assert(views(r@) =~= detected_features(src@));
    r
}


// ---------------------------------------------------------------------
// Choosing the features of a build

/// The first-piece length of `s`: up to its first `,` or space.
pub open spec fn piece_end(s: Seq<char>) -> nat
    decreases s.len(),
{
    if s.len() == 0 || s[0] == ',' || s[0] == ' ' {
        0
    } else {
        1 + piece_end(s.drop_first())
    }
}

/// The non-empty pieces of `s` between commas and spaces, in order.
pub open spec fn pieces(s: Seq<char>) -> Seq<Seq<char>>
    decreases s.len(),
{
    let e = piece_end(s);
    if e > s.len() {
        seq![]
    } else {
        (if e > 0 { seq![s.take(e as int)] } else { seq![] }) + (if e < s.len() {
            pieces(s.skip((e + 1) as int))
        } else {
            seq![]
        })
    }
}

/// The features (`which` false) or crates (`which` true) that the known object names among
/// `objs` select, in order.
pub open spec fn selected(objs: Seq<Seq<char>>, which: bool) -> Seq<Seq<char>>
    decreases objs.len(),
{
    if objs.len() == 0 {
        seq![]
    } else {
        selected(objs.drop_last(), which) + match obj_feature(objs.last()) {
            Some((r, c)) => seq![if which { c } else { r }],
            None => seq![],
        }
    }
}

pub open spec fn all_features() -> Seq<Seq<char>> {
    seq!["audio"@, "daw"@, "midi"@, "term"@]
}

pub open spec fn all_crates() -> Seq<Seq<char>> {
    seq!["basil-obj-audio"@, "basil-obj-daw"@, "basil-obj-midi"@, "basil-obj-term"@]
}

/// How `--features` is read: absent or `@auto`, `@all`, or a list of object names.
pub open spec fn is_auto(spec: Option<Seq<char>>) -> bool {
    spec is None || spec == Some("@auto"@)
}

proof fn lemma_piece_end_is(s: Seq<char>, e: int)
    requires
        0 <= e <= s.len(),
        e < s.len() ==> (s[e] == ',' || s[e] == ' '),
        forall|i: int| 0 <= i < e ==> s[i] != ',' && s[i] != ' ',
    ensures
        piece_end(s) == e,
    decreases s.len(),
{
    if e > 0 {
        assert forall|i: int| 0 <= i < e - 1 implies s.drop_first()[i] != ',' && s.drop_first()[i] != ' ' by {
            assert(s.drop_first()[i] == s[i + 1]);
        }
        lemma_piece_end_is(s.drop_first(), e - 1);
    }
}

proof fn lemma_feature_literals()
    ensures
        strictly_sorted(all_features()),
        strictly_sorted(all_crates()),
        crates_of(all_features()) == all_crates(),
        forall|x: Seq<char>| #[trigger] feature_crate(x) is Some ==> all_features().contains(x),
{
    reveal_strlit("audio");
    reveal_strlit("daw");
    reveal_strlit("midi");
    reveal_strlit("term");
    reveal_strlit("basil-obj-audio");
    reveal_strlit("basil-obj-daw");
    reveal_strlit("basil-obj-midi");
    reveal_strlit("basil-obj-term");
    let f = all_features();
    let c = all_crates();
    assert(seq_less(f[0], f[1]));
    assert(seq_less(f[1], f[2]));
    assert(seq_less(f[2], f[3]));
    assert(seq_less(f[0], f[2]));
    assert(seq_less(f[0], f[3]));
    assert(seq_less(f[1], f[3]));
    assert(strictly_sorted(f));
    assert(strictly_sorted(f));
    reveal_with_fuel(seq_less, 12);
    assert(seq_less(c[0], c[1]));
    assert(seq_less(c[1], c[2]));
    assert(seq_less(c[2], c[3]));
    assert(seq_less(c[0], c[2]));
    assert(seq_less(c[0], c[3]));
    assert(seq_less(c[1], c[3]));
    assert(strictly_sorted(c));
    reveal_with_fuel(crates_of, 5);
    assert(crates_of(f) =~= c);
    assert(feature_crate("audio"@) is Some);
}


fn four_features(first: &str, second: &str, third: &str, fourth: &str) -> (v: Vec<String>)
    ensures
        views(v@) == seq![first@, second@, third@, fourth@],
{
    let mut v: Vec<String> = Vec::new();
    v.push(string_of(first));
    v.push(string_of(second));
    v.push(string_of(third));
    v.push(string_of(fourth));
    assert(views(v@) =~= seq![first@, second@, third@, fourth@]);
    v
}

/// The features and crates that the object names in `list` select, each sorted.
fn features_from_list(list: &str) -> (r: (Vec<String>, Vec<String>))
    ensures
        strictly_sorted(views(r.0@)),
        views(r.0@).to_set() == selected(pieces(list@), false).to_set(),
        strictly_sorted(views(r.1@)),
        views(r.1@).to_set() == selected(pieces(list@), true).to_set(),
{
    let v = chars_of(list);
    let mut rt: Vec<String> = Vec::new();
    let mut objc: Vec<String> = Vec::new();
    let ghost mut done: Seq<Seq<char>> = seq![];
    let mut a: usize = 0;
    assert(v@.skip(0) =~= v@);
    loop
        invariant_except_break
            pieces(v@) == done + pieces(v@.skip(a as int)),
        invariant
            a <= v@.len(),
            v@ == list@,
            views(rt@) == selected(done, false),
            views(objc@) == selected(done, true),
        ensures
            pieces(v@) == done,
            views(rt@) == selected(done, false),
            views(objc@) == selected(done, true),
        decreases v@.len() - a,
    {
        let mut e = a;
        while e < v.len() && v[e] != ',' && v[e] != ' '
            invariant
                a <= e <= v@.len(),
                forall|i: int| a <= i < e ==> v@[i] != ',' && v@[i] != ' ',
            decreases v@.len() - e,
        {
            e += 1;
        }
        let ghost rest = v@.skip(a as int);
        proof {
            lemma_piece_end_is(rest, e - a);
            assert(rest.take(e - a) =~= v@.subrange(a as int, e as int));
            if e < v.len() {
                assert(rest.skip(e - a + 1) =~= v@.skip(e + 1));
            }
        }
        if e > a {
            let piece = crate::text::string_from_range(&v, a, e);
            let ghost before = done;
            match map_obj_to_rt(piece.as_str()) {
                Some((r, c)) => {
                    rt.push(r);
                    objc.push(c);
                },
                None => {},
            }
            proof {
                done = done.push(piece@);
                assert(done.drop_last() =~= before);
            }
            assert(views(rt@) =~= selected(done, false));
            assert(views(objc@) =~= selected(done, true));
        }
        if e == v.len() {
            assert(pieces(v@) =~= done);
            break;
        }
        assert(pieces(v@) =~= done + pieces(v@.skip(e + 1)));
        a = e + 1;
    }
    (to_set(rt), to_set(objc))
}

/// The runtime features and the object crates of a build, from the `--features`
/// option (absent: `None`) and the source.
pub fn resolve_features(features_spec: Option<&str>, src: &str) -> (r: (Vec<String>, Vec<String>))
    ensures
        match features_spec {
            Some(f) if f@ != "@auto"@ && f@ == "@all"@ => views(r.0@) == seq!["audio"@, "midi"@, "daw"@, "term"@]
                && views(r.1@) == all_crates(),
            Some(f) if f@ != "@auto"@ => strictly_sorted(views(r.0@)) && views(r.0@).to_set() == selected(
                pieces(f@),
                false,
            ).to_set() && strictly_sorted(views(r.1@)) && views(r.1@).to_set() == selected(pieces(f@), true).to_set(),
            _ => views(r.0@) == all_features() && views(r.1@) == all_crates(),
        },
{
    proof { lemma_feature_literals(); }
    let auto = match features_spec {
        None => true,
        Some(f) => str_eq(f, "@auto"),
    };
    if auto {
        let mut all = four_features("audio", "midi", "daw", "term");
        let ghost base = views(all@);
        let mut detected = autodetect_features(src);
        let ghost d = views(detected@);
        all.append(&mut detected);
        assert(views(all@) =~= base + d);
        let set = to_set(all);
        assert forall|x: Seq<char>| views(set@).to_set().contains(x) <==> all_features().to_set().contains(x) by {
            if (base + d).contains(x) {
                let i = choose|i: int| 0 <= i < (base + d).len() && (base + d)[i] == x;
                if i >= base.len() {
                    assert(d.contains(x));
                }
            }
            if all_features().contains(x) {
                let i = choose|i: int| 0 <= i < 4 && all_features()[i] == x;
                if i == 0 { assert((base + d)[0] == x); }
                if i == 1 { assert((base + d)[2] == x); }
                if i == 2 { assert((base + d)[1] == x); }
                if i == 3 { assert((base + d)[3] == x); }
            }
        }
        assert(views(set@).to_set() =~= all_features().to_set());
        proof { lemma_sorted_unique(views(set@), all_features()); }
        let crates = map_rt_to_crates(&set);
        return (set, crates);
    }
    let f = match features_spec {
        Some(f) => f,
        None => "",
    };
    if str_eq(f, "@all") {
        let all = four_features("audio", "midi", "daw", "term");
        let copy = four_features("audio", "midi", "daw", "term");
        let set = to_set(copy);
        let ghost a = seq!["audio"@, "midi"@, "daw"@, "term"@];
        assert forall|x: Seq<char>| views(set@).to_set().contains(x) <==> all_features().to_set().contains(x) by {
            if a.contains(x) {
                let i = choose|i: int| 0 <= i < 4 && a[i] == x;
                if i == 0 { assert(all_features()[0] == x); }
                if i == 1 { assert(all_features()[2] == x); }
                if i == 2 { assert(all_features()[1] == x); }
                if i == 3 { assert(all_features()[3] == x); }
            }
            if all_features().contains(x) {
                let i = choose|i: int| 0 <= i < 4 && all_features()[i] == x;
                if i == 0 { assert(a[0] == x); }
                if i == 1 { assert(a[2] == x); }
                if i == 2 { assert(a[1] == x); }
                if i == 3 { assert(a[3] == x); }
            }
        }
        assert(views(set@).to_set() =~= all_features().to_set());
        proof { lemma_sorted_unique(views(set@), all_features()); }
        let crates = map_rt_to_crates(&set);
        return (all, crates);
    }
    features_from_list(f)
}

} // verus!
