use voice_actions::chain::run_wasm_chain;

fn files(names: &[&str]) -> Vec<String> {
    names.iter().map(|s| s.to_string()).collect()
}

#[test]
fn empty_chain_returns_input() {
    let out = run_wasm_chain(&[], "hello", |_p: &String, _t: &String| -> Result<String, String> {
        Err("never called".to_string())
    });
    assert_eq!(out.unwrap(), "hello");
}

#[test]
fn modules_run_in_order_on_previous_output() {
    let out = run_wasm_chain(
        &files(&["a.wasm", "b.wasm", "c.wasm"]),
        "x",
        |p: &String, t: &String| -> Result<String, String> { Ok(format!("{t}>{p}")) },
    );
    assert_eq!(out.unwrap(), "x>a.wasm>b.wasm>c.wasm");
}

#[test]
fn echo_chain_passes_text_through() {
    let out = run_wasm_chain(&files(&["echo.wasm", "echo.wasm"]), "héllo", |_p: &String, t: &String| -> Result<String, ()> {
        Ok(t.clone())
    });
    assert_eq!(out.unwrap(), "héllo");
}

#[test]
fn failing_module_stops_the_chain() {
    let out = run_wasm_chain(
        &files(&["upper.wasm", "broken.wasm", "never.wasm"]),
        "abc",
        |p: &String, t: &String| -> Result<String, String> {
            if p == "broken.wasm" {
                Err(format!("trap on {t}"))
            } else if p == "never.wasm" {
                panic!("module after a failure was run")
            } else {
                Ok(t.to_uppercase())
            }
        },
    );
    let err = out.unwrap_err();
    assert_eq!(err.module, 1);
    assert_eq!(err.path, "broken.wasm");
    assert_eq!(err.cause, "trap on ABC");
}

#[test]
fn first_module_failure_reports_position_zero() {
    let out = run_wasm_chain(&files(&["bad.wasm"]), "abc", |_p: &String, _t: &String| -> Result<String, u8> {
        Err(7)
    });
    let err = out.unwrap_err();
    assert_eq!((err.module, err.path.as_str(), err.cause), (0, "bad.wasm", 7));
}
