use timers::codec::{from_json, load_records, load_registry, registry_json, to_json};
use timers::present::display_rows;
use timers::registry::{Registry, TimerRecord};
use timers::timer::Dur;

fn reg_with(names: &[&str], secs: u64) -> Registry {
    let mut reg = Registry::new();
    for n in names {
        assert!(reg.create(n.to_string(), Dur::from_secs(secs)));
    }
    reg
}

#[test]
fn serialized_text_is_exact() {
    let mut reg = Registry::new();
    assert!(reg.create("a".to_string(), Dur::from_secs(5)));
    let text = registry_json(&reg);
    assert_eq!(text, "[{\"name\":\"a\",\"duration\":{\"secs\":5,\"nanos\":0}}]");
    let empty = Registry::new();
    assert_eq!(registry_json(&empty), "[]");
}

#[test]
fn round_trip_preserves_definitions_and_drops_running_state() {
    let mut reg = reg_with(&["alpha", "beta", "gamma"], 0);
    reg.timers[0].duration = Dur { secs: 90, nanos: 250_000_000 };
    reg.timers[1].duration = Dur::from_secs(u64::MAX);
    // Running state must not survive the round trip.
    reg.restart_at(2, 12345);
    let text = registry_json(&reg);
    let loaded = load_registry(&text);
    assert_eq!(loaded.timers.len(), 3);
    for (orig, back) in reg.timers.iter().zip(loaded.timers.iter()) {
        assert_eq!(orig.name, back.name);
        assert_eq!(orig.duration, back.duration);
        assert_eq!(back.started, None);
    }
}

#[test]
fn round_trip_escapes_awkward_names() {
    let names = ["with \"quotes\"", "back\\slash", "sp ace", "uni\u{00e9}"];
    let mut reg = Registry::new();
    for n in names.iter() {
        assert!(reg.create(n.to_string(), Dur::from_secs(1)));
    }
    let text = registry_json(&reg);
    let loaded = load_registry(&text);
    assert_eq!(loaded.timers.len(), names.len());
    for (n, t) in names.iter().zip(loaded.timers.iter()) {
        assert_eq!(t.name, *n);
    }
}

#[test]
fn malformed_file_yields_empty_registry_and_startup_goes_on() {
    for bad in [
        "",
        "not json at all",
        "[{\"name\":\"tru",
        "[{\"name\":\"a\",\"duration\":{\"secs\":5,\"nanos\":0}}",
        "[{\"name\":\"a\",\"duration\":{\"secs\":5,\"nanos\":0}}]trailing",
        "{\"name\":\"a\"}",
        "[{\"duration\":{\"secs\":5,\"nanos\":0},\"name\":\"a\"}]",
        "[{\"name\":\"a\",\"duration\":{\"secs\":99999999999999999999999,\"nanos\":0}}]",
        "[{\"name\":\"a\",\"duration\":{\"secs\":5,\"nanos\":1000000000}}]",
        "[{\"name\":\"a\",\"duration\":{\"secs\":007,\"nanos\":0}}]",
    ] {
        let reg = load_registry(bad);
        assert_eq!(reg.timers.len(), 0, "input: {}", bad);
        // The add/edit/start flow still works on the empty registry.
        let mut reg = reg;
        assert!(reg.create("fresh".to_string(), Dur::from_secs(3)));
        assert_eq!(reg.find_by_name("fresh"), Some(0));
    }
}

#[test]
fn whitespace_between_records_is_tolerated() {
    let text = " [ {\"name\":\"a\",\"duration\":{\"secs\":1,\"nanos\":0}} , {\"name\":\"b\",\"duration\":{\"secs\":2,\"nanos\":0}} ] ";
    let recs = load_records(text);
    assert_eq!(recs.len(), 2);
    assert_eq!(recs[0].name, "a");
    assert_eq!(recs[1].name, "b");
    assert_eq!(recs[1].duration.secs, 2);
}

#[test]
fn whitespace_inside_records_is_tolerated() {
    // A space after a colon, as ordinary JSON writers put there.
    let recs = load_records("[{\"name\": \"a\",\"duration\":{\"secs\":5,\"nanos\":0}}]");
    assert_eq!(recs.len(), 1);
    assert_eq!(recs[0].name, "a");
    assert_eq!(recs[0].duration.secs, 5);
}

#[test]
fn pretty_printed_file_loads() {
    let text = "[\n  {\n    \"name\": \"alpha\",\n    \"duration\": {\n      \"secs\": 90,\n      \"nanos\": 250000000\n    }\n  },\n  {\n    \"name\": \"beta\",\n    \"duration\": {\n      \"secs\": 2,\n      \"nanos\": 0\n    }\n  }\n]";
    let reg = load_registry(text);
    assert_eq!(reg.timers.len(), 2);
    assert_eq!(reg.timers[0].name, "alpha");
    assert_eq!(reg.timers[0].duration, Dur { secs: 90, nanos: 250_000_000 });
    assert_eq!(reg.timers[1].name, "beta");
    assert_eq!(reg.timers[1].started, None);
}

#[test]
fn control_characters_are_escaped_and_round_trip() {
    let name = "line\nbreak\tand\u{0001}more";
    let mut reg = Registry::new();
    assert!(reg.create(name.to_string(), Dur::from_secs(1)));
    let text = registry_json(&reg);
    // The persisted text is valid JSON: serde_json reads the same name.
    let v: serde_json::Value = serde_json::from_str(&text).unwrap();
    assert_eq!(v[0]["name"].as_str().unwrap(), name);
    // And it parses back to the same timer.
    let loaded = load_registry(&text);
    assert_eq!(loaded.timers.len(), 1);
    assert_eq!(loaded.timers[0].name, name);
}

#[test]
fn raw_control_character_in_file_is_malformed() {
    let text = "[{\"name\":\"a\nb\",\"duration\":{\"secs\":1,\"nanos\":0}}]";
    assert_eq!(load_records(text).len(), 0);
}

#[test]
fn hex_escape_in_file_parses() {
    let text = "[{\"name\":\"a\\u000ab\",\"duration\":{\"secs\":1,\"nanos\":0}}]";
    let recs = load_records(text);
    assert_eq!(recs.len(), 1);
    assert_eq!(recs[0].name, "a\nb");
    // An escape the parser does not know fails soft.
    assert_eq!(load_records("[{\"name\":\"a\\x\",\"duration\":{\"secs\":1,\"nanos\":0}}]").len(), 0);
}

#[test]
fn empty_array_with_whitespace_loads_empty() {
    let reg = load_registry(" \n\t[ ]\r\n");
    assert_eq!(reg.timers.len(), 0);
}

#[test]
fn from_json_rejects_what_load_records_drops() {
    assert!(from_json("[oops]").is_none());
    let ok = from_json("[]").unwrap();
    assert_eq!(ok.len(), 0);
}

#[test]
fn to_json_of_records_keeps_nanos() {
    let recs = vec![TimerRecord {
        name: "n".to_string(),
        duration: Dur { secs: 3, nanos: 999_999_999 },
    }];
    let text = to_json(&recs);
    assert_eq!(text, "[{\"name\":\"n\",\"duration\":{\"secs\":3,\"nanos\":999999999}}]");
    let back = load_records(&text);
    assert_eq!(back.len(), 1);
    assert_eq!(back[0].duration.nanos, 999_999_999);
}

#[test]
fn serde_json_reads_our_output() {
    let mut reg = Registry::new();
    assert!(reg.create("alpha".to_string(), Dur { secs: 7, nanos: 0 }));
    let text = registry_json(&reg);
    let v: serde_json::Value = serde_json::from_str(&text).unwrap();
    let arr = v.as_array().unwrap();
    assert_eq!(arr.len(), 1);
    assert_eq!(arr[0]["name"].as_str().unwrap(), "alpha");
    assert_eq!(arr[0]["duration"]["secs"].as_u64().unwrap(), 7);
    assert_eq!(arr[0]["duration"]["nanos"].as_u64().unwrap(), 0);
}

#[test]
fn snapshot_omits_running_state() {
    let mut reg = reg_with(&["a", "b"], 4);
    reg.restart_at(0, 1000);
    let snap = reg.snapshot_for_persistence();
    assert_eq!(snap.len(), 2);
    assert_eq!(snap[0].name, "a");
    assert_eq!(snap[0].duration.secs, 4);
}

#[test]
fn display_rows_cover_running_timers_only() {
    let mut reg = reg_with(&["idle", "run1", "run2"], 10);
    reg.restart_at(1, 1_000_000_000);
    reg.restart_at(2, 2_000_000_000);
    let rows = display_rows(&reg, 4_500_000_000);
    assert_eq!(rows.len(), 2);
    assert_eq!(rows[0].name, "run1");
    assert_eq!(rows[0].text, "6.50");
    assert_eq!(rows[1].name, "run2");
    assert_eq!(rows[1].text, "7.50");
    // Expired timers show a clamped zero.
    let rows = display_rows(&reg, 99_000_000_000);
    assert_eq!(rows[0].text, "0.00");
}
