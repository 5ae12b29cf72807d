use basilcore::features::{
    autodetect_features, first_missing_required_feature, map_obj_to_rt, map_rt_to_crates, resolve_features,
};
use basilcore::order::to_set;

fn strings(v: &[&str]) -> Vec<String> {
    v.iter().map(|s| s.to_string()).collect()
}

#[test]
fn object_names_select_features() {
    assert_eq!(map_obj_to_rt("obj-midi"), Some(("midi".to_string(), "basil-obj-midi".to_string())));
    assert_eq!(map_obj_to_rt("midi"), None);
    assert_eq!(map_rt_to_crates(&strings(&["audio", "x", "term"])), strings(&["basil-obj-audio", "basil-obj-term"]));
}

#[test]
fn sets_are_sorted_without_repeats() {
    assert_eq!(to_set(strings(&["term", "audio", "term", "daw"])), strings(&["audio", "daw", "term"]));
    assert!(to_set(Vec::new()).is_empty());
}

#[test]
fn features_are_detected_from_use_lines_and_symbols() {
    assert_eq!(autodetect_features("  #USE Audio, MIDI\nPRINT 1"), strings(&["audio", "midi"]));
    assert_eq!(autodetect_features("x = TERM_WIDTH()\nDAW_PLAY()"), strings(&["daw", "term"]));
    assert!(autodetect_features("PRINT \"#use audio\"").is_empty());
}

#[test]
fn missing_feature_is_reported() {
    let miss = first_missing_required_feature("MIDI_OPEN(1)", &strings(&["audio"])).unwrap();
    assert_eq!(miss.hint, "MIDI_* symbol");
    assert_eq!(miss.required_obj, "obj-midi");
    assert_eq!(miss.suggest_use, "MIDI");
    assert_eq!(miss.cli_name, "midi");
    assert!(first_missing_required_feature("MIDI_OPEN(1)", &strings(&["midi"])).is_none());
    let first = first_missing_required_feature("TERM_X AUDIO_Y", &Vec::new()).unwrap();
    assert_eq!(first.cli_name, "audio");
}

#[test]
fn feature_options() {
    let (rt, crates) = resolve_features(None, "PRINT 1");
    assert_eq!(rt, strings(&["audio", "daw", "midi", "term"]));
    assert_eq!(crates, strings(&["basil-obj-audio", "basil-obj-daw", "basil-obj-midi", "basil-obj-term"]));
    let (rt, crates) = resolve_features(Some("@all"), "");
    assert_eq!(rt, strings(&["audio", "midi", "daw", "term"]));
    assert_eq!(crates, strings(&["basil-obj-audio", "basil-obj-daw", "basil-obj-midi", "basil-obj-term"]));
    let (rt, crates) = resolve_features(Some("obj-term, obj-audio,bogus obj-term"), "");
    assert_eq!(rt, strings(&["audio", "term"]));
    assert_eq!(crates, strings(&["basil-obj-audio", "basil-obj-term"]));
}
