use mimofan_core::call_fingerprint::fingerprint;
use mimofan_core::json::JsonValue;
use mimofan_core::loop_guard::{LoopGuard, LoopGuardConfig, LoopPattern, ToolObservation, DEFAULT_WARMUP_CALLS};

fn text(s: &str) -> JsonValue {
    JsonValue::Text(s.to_string())
}

fn num(n: i64) -> JsonValue {
    JsonValue::Number(n.to_string())
}

fn obj(entries: Vec<(&str, JsonValue)>) -> JsonValue {
    JsonValue::Object(entries.into_iter().map(|(k, v)| (k.to_string(), v)).collect())
}

fn guard() -> LoopGuard {
    LoopGuard::new(LoopGuardConfig { enabled: true, ..LoopGuardConfig::default() })
}

fn finish_warmup(guard: &mut LoopGuard) {
    for index in 0..=DEFAULT_WARMUP_CALLS {
        let args = obj(vec![("warmup", num(index as i64))]);
        let observation = ToolObservation {
            name: "list_dir",
            fingerprint: fingerprint("list_dir", &args),
            success: true,
            output: "warmup output",
            progress: true,
        };
        assert!(guard.observe(&observation).is_none(), "warmup call {index} must not trip a detector");
    }
}

fn stalled<'a>(name: &'a str, args: &JsonValue) -> ToolObservation<'a> {
    ToolObservation { name, fingerprint: fingerprint(name, args), success: true, output: "same output", progress: false }
}

#[test]
fn argument_key_order_does_not_defeat_the_fingerprint() {
    let mut guard = guard();
    finish_warmup(&mut guard);
    let a = obj(vec![("path", text("x.rs")), ("limit", num(10))]);
    let b = obj(vec![("limit", num(10)), ("path", text("x.rs"))]);
    assert_eq!(guard.observe(&stalled("read_file", &a)), None);
    assert_eq!(guard.observe(&stalled("read_file", &b)), None);
    let loop_break = guard
        .observe(&stalled("read_file", &a))
        .expect("key order must not change the fingerprint");
    assert_eq!(loop_break.pattern, LoopPattern::RepeatedCall);
}

#[test]
fn nested_key_order_does_not_defeat_the_fingerprint() {
    let a = obj(vec![(
        "opts",
        obj(vec![
            ("deep", obj(vec![("x", num(1)), ("y", num(2))])),
            ("z", JsonValue::Array(vec![num(1), num(2)])),
        ]),
    )]);
    let b = obj(vec![(
        "opts",
        obj(vec![
            ("deep", obj(vec![("y", num(2)), ("x", num(1))])),
            ("z", JsonValue::Array(vec![num(1), num(2)])),
        ]),
    )]);
    assert_eq!(fingerprint("t", &a), fingerprint("t", &b));
}

#[test]
fn array_order_is_significant() {
    let a = obj(vec![("paths", JsonValue::Array(vec![text("a.rs"), text("b.rs")]))]);
    let b = obj(vec![("paths", JsonValue::Array(vec![text("b.rs"), text("a.rs")]))]);
    assert_ne!(fingerprint("t", &a), fingerprint("t", &b));
}

#[test]
fn distinct_shapes_do_not_collide() {
    assert_ne!(
        fingerprint("t", &obj(vec![("v", text("1"))])),
        fingerprint("t", &obj(vec![("v", num(1))]))
    );
    assert_ne!(
        fingerprint("t", &obj(vec![("v", JsonValue::Null)])),
        fingerprint("t", &obj(vec![]))
    );
    let args = obj(vec![("path", text("x.rs"))]);
    assert_ne!(fingerprint("read_file", &args), fingerprint("edit_file", &args));
}

#[test]
fn reordering_three_keys_keeps_the_fingerprint() {
    let a = obj(vec![("b", num(2)), ("a", num(1)), ("c", JsonValue::Bool(true))]);
    let b = obj(vec![("c", JsonValue::Bool(true)), ("b", num(2)), ("a", num(1))]);
    assert_eq!(fingerprint("t", &a), fingerprint("t", &b));
    let c = obj(vec![("c", JsonValue::Bool(false)), ("b", num(2)), ("a", num(1))]);
    assert_ne!(fingerprint("t", &a), fingerprint("t", &c));
}

#[test]
fn keys_are_told_apart_from_values() {
    // A key and a value that together spell the same characters differ.
    let a = obj(vec![("ab", text("c"))]);
    let b = obj(vec![("a", text("bc"))]);
    assert_ne!(fingerprint("t", &a), fingerprint("t", &b));
}
