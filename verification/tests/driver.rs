use std::rc::Rc;

use koto::diagnostics::{Position, Span};
use koto::driver::{
    format_fault, vm_fault, CompileOutcome, Error, Koto, Listing, Options, RunAction,
};
use koto::fault::ValueError;
use koto::value::{has_distinct_keys, Value};

type Driver = Koto<()>;
type V = Value<()>;

fn entry<'a>(env: &'a V, key: &str) -> &'a V {
    match env {
        Value::Mapping(entries) => &entries.iter().find(|(k, _)| k == key).unwrap().1,
        other => panic!("not a map: {:?}", other),
    }
}

fn text_of(v: &V) -> String {
    match v {
        Value::Str(s) => s.as_ref().clone(),
        other => panic!("not a string: {:?}", other),
    }
}

fn number_of(v: &V) -> f64 {
    match v {
        Value::Number(bits) => f64::from_bits(*bits),
        other => panic!("not a number: {:?}", other),
    }
}

/// Plays the part of the host for a script whose top level gives `top` and whose
/// functions give what `call` says.
fn run_with(
    driver: &Driver,
    top: Result<V, Error>,
    call: impl Fn(usize) -> Result<V, Error>,
) -> Result<V, String> {
    match driver.run() {
        RunAction::Finish(result) => result,
        RunAction::CallFunction(_) => panic!("nothing was run yet"),
        RunAction::RunChunk => match driver.chunk_finished(top, None) {
            RunAction::Finish(result) => result,
            RunAction::CallFunction(f) => driver.call_function(call(f), None),
            RunAction::RunChunk => panic!("the script has run already"),
        },
    }
}

#[test]
fn compiling_and_running_a_script_with_main_yields_the_result_of_main() {
    let mut driver = Driver::new();
    let script = "export main = || 1 + 2";
    assert_eq!(driver.compile(script, CompileOutcome::Compiled), Ok(Listing::Silent));
    assert!(driver.is_compiled());
    assert_eq!(driver.script(), script);
    driver.global_mut().push(("main".to_string(), Value::Function(11)));
    let result = run_with(&driver, Ok(Value::Empty), |f| {
        assert_eq!(f, 11);
        Ok(Value::Number(3.0_f64.to_bits()))
    });
    assert_eq!(number_of(&result.unwrap()), 3.0);
}

#[test]
fn without_main_the_result_of_the_script_is_the_result() {
    let mut driver = Driver::new();
    driver.compile("1 + 2", CompileOutcome::Compiled).unwrap();
    let result = run_with(&driver, Ok(Value::Number(3.0_f64.to_bits())), |_| {
        panic!("there is no function to call")
    });
    assert_eq!(number_of(&result.unwrap()), 3.0);

    driver.global_mut().push(("main".to_string(), Value::Bool(true)));
    let result = run_with(&driver, Ok(Value::Number(4.0_f64.to_bits())), |_| {
        panic!("main is no function")
    });
    assert_eq!(number_of(&result.unwrap()), 4.0);
}

#[test]
fn running_without_a_script_gives_empty() {
    let driver = Driver::new();
    assert!(!driver.is_compiled());
    assert!(matches!(driver.run(), RunAction::Finish(Ok(Value::Empty))));
}

#[test]
fn a_fault_of_the_script_ends_the_run_with_its_text() {
    let mut driver = Driver::new();
    driver.compile("x = y", CompileOutcome::Compiled).unwrap();
    driver.global_mut().push(("main".to_string(), Value::Function(1)));
    let fault = Error::VmError { message: "unknown name".to_string(), instruction: 5 };
    let span = Span {
        start: Position { line: 1, column: 4 },
        end: Position { line: 1, column: 5 },
    };
    match driver.chunk_finished(Err(fault.clone()), Some(span)) {
        RunAction::Finish(Err(text)) => {
            assert_eq!(text, "unknown name\n --> 1:4\n   |\n 1 | x = y\n   |    ^")
        }
        other => panic!("unexpected {:?}", other),
    }
    match driver.chunk_finished(Err(fault), None) {
        RunAction::Finish(Err(text)) => {
            assert_eq!(text, "Runtime error at instruction 5: unknown name\n")
        }
        other => panic!("unexpected {:?}", other),
    }
    let external = Error::ExternalError { message: "disk full".to_string() };
    assert_eq!(
        driver.call_function(Err(external), None).unwrap_err(),
        "Error: disk full\n"
    );
    assert!(driver.is_compiled());
}

#[test]
fn a_script_that_is_refused_leaves_nothing_to_run() {
    let mut driver = Driver::new();
    driver.compile("x = 1", CompileOutcome::Compiled).unwrap();
    let span = Span {
        start: Position { line: 1, column: 7 },
        end: Position { line: 2, column: 5 },
    };
    let outcome = CompileOutcome::ParseError { message: "unexpected end".to_string(), span };
    let script = "f = ||\n  (1 +\n";
    assert_eq!(
        driver.compile(script, outcome),
        Err("unexpected end\n --> 1:7\n   |\n 1 | f = ||\n 2 |   (1 +\n".to_string())
    );
    assert!(!driver.is_compiled());
    assert_eq!(driver.script(), "x = 1");
    assert!(matches!(driver.run(), RunAction::Finish(Ok(Value::Empty))));

    driver.compile("x = 1", CompileOutcome::Compiled).unwrap();
    let outcome = CompileOutcome::CompileError { message: "too many constants".to_string() };
    assert_eq!(
        driver.compile("y = 2", outcome),
        Err("Error while compiling script: too many constants".to_string())
    );
    assert!(!driver.is_compiled());
}

#[test]
fn the_options_choose_the_listing_and_the_plan() {
    let quiet = Driver::new();
    let plan = quiet.compile_plan();
    assert!(!plan.export_all_top_level);
    assert!(plan.shrink_constants);

    let mut annotated = Driver::with_options(Options {
        show_annotated: true,
        show_bytecode: true,
        repl_mode: true,
    });
    let plan = annotated.compile_plan();
    assert!(plan.export_all_top_level);
    assert!(!plan.shrink_constants);
    assert_eq!(annotated.compile("1", CompileOutcome::Compiled), Ok(Listing::Annotated));

    let mut bytecode = Driver::with_options(Options {
        show_annotated: false,
        show_bytecode: true,
        repl_mode: false,
    });
    assert_eq!(bytecode.compile("1", CompileOutcome::Compiled), Ok(Listing::Bytecode));
    assert!(!Options::default().repl_mode);
}

#[test]
fn functions_are_called_by_name() {
    let mut driver = Driver::new();
    driver.global_mut().push(("square".to_string(), Value::Function(4)));
    driver.global_mut().push(("limit".to_string(), Value::Number(1.0_f64.to_bits())));
    assert_eq!(driver.get_global_function("square"), Some(4));
    assert_eq!(driver.get_global_function("limit"), None);
    assert_eq!(driver.get_global_function("cube"), None);
    assert_eq!(driver.call_function_by_name("square"), Ok(4));
    assert_eq!(
        driver.call_function_by_name("cube"),
        Err("Runtime error: function 'cube' not found".to_string())
    );
    assert_eq!(
        driver.call_function_by_name("limit"),
        Err("Runtime error: function 'limit' not found".to_string())
    );
    let result = driver.call_function(Ok(Value::Bool(true)), None);
    assert!(matches!(result, Ok(Value::Bool(true))));
}

#[test]
fn a_new_driver_has_an_env_with_nothing_set() {
    let driver = Driver::new();
    let env = driver.global("env").unwrap();
    assert!(has_distinct_keys(&env));
    assert!(matches!(entry(&env, "script_dir"), Value::Empty));
    assert!(matches!(entry(&env, "script_path"), Value::Empty));
    match entry(&env, "args") {
        Value::List(items) => assert!(items.is_empty()),
        other => panic!("not a list: {:?}", other),
    }
    assert!(driver.global("other").is_none());
}

#[test]
fn args_are_read_back_in_their_order() {
    let mut driver = Driver::new();
    driver.set_args(&["a".to_string(), "b".to_string()]);
    let env = driver.global("env").unwrap();
    match entry(&env, "args") {
        Value::List(items) => {
            let texts: Vec<String> = items.iter().map(text_of).collect();
            assert_eq!(texts, vec!["a", "b"]);
        }
        other => panic!("not a list: {:?}", other),
    }
    driver.set_args(&[]);
    match entry(&driver.env(), "args") {
        Value::List(items) => assert!(items.is_empty()),
        other => panic!("not a list: {:?}", other),
    }
}

#[test]
fn the_script_path_sets_path_and_directory() {
    let mut driver = Driver::new();
    driver.set_script_path(Some("scripts/demo/main.koto".to_string()));
    let env = driver.env();
    assert_eq!(text_of(entry(&env, "script_path")), "scripts/demo/main.koto");
    assert_eq!(text_of(entry(&env, "script_dir")), "scripts/demo");

    driver.set_script_path(Some("main.koto".to_string()));
    let env = driver.env();
    assert_eq!(text_of(entry(&env, "script_path")), "main.koto");
    assert_eq!(text_of(entry(&env, "script_dir")), "");

    driver.set_script_path(Some("/".to_string()));
    let env = driver.env();
    assert_eq!(text_of(entry(&env, "script_path")), "/");
    assert!(matches!(entry(&env, "script_dir"), Value::Empty));

    driver.set_script_path(None);
    let env = driver.env();
    assert!(matches!(entry(&env, "script_path"), Value::Empty));
    assert!(matches!(entry(&env, "script_dir"), Value::Empty));

    driver.apply_script_path(Some("a/b".to_string()), Some("elsewhere".to_string()));
    assert_eq!(text_of(entry(&driver.env(), "script_dir")), "elsewhere");
    driver.apply_script_path(None, Some("ignored".to_string()));
    assert!(matches!(entry(&driver.env(), "script_dir"), Value::Empty));
}

#[test]
fn globals_are_found_by_name_and_env_belongs_to_the_driver() {
    let mut driver = Driver::new();
    driver.global_mut().push(("x".to_string(), Value::Bool(true)));
    driver.global_mut().push(("env".to_string(), Value::Bool(false)));
    driver.global_mut().push(("x".to_string(), Value::Bool(false)));
    assert!(matches!(driver.global("x"), Some(Value::Bool(true))));
    assert!(matches!(driver.global("env"), Some(Value::Mapping(_))));
    driver.set_args(&["only".to_string()]);
    match entry(&driver.global("env").unwrap(), "args") {
        Value::List(items) => assert_eq!(items.len(), 1),
        other => panic!("not a list: {:?}", other),
    }
    let shared: V = Value::Str(Rc::new("s".to_string()));
    driver.global_mut().push(("s".to_string(), shared));
    assert_eq!(text_of(&driver.global("s").unwrap()), "s");
}

#[test]
fn a_script_is_compiled_given_its_args_and_started() {
    let mut driver = Driver::new();
    let args = ["a".to_string(), "b".to_string()];
    let action = driver.run_script_with_args("1", &args, CompileOutcome::Compiled);
    assert!(matches!(action, Ok((Listing::Silent, RunAction::RunChunk))));
    assert!(driver.is_compiled());
    match entry(&driver.env(), "args") {
        Value::List(items) => assert_eq!(items.len(), 2),
        other => panic!("not a list: {:?}", other),
    }

    let refused = CompileOutcome::CompileError { message: "no".to_string() };
    let action = driver.run_script_with_args("2", &[], refused);
    assert_eq!(action.unwrap_err(), "Error while compiling script: no");
    assert!(!driver.is_compiled());
    match entry(&driver.env(), "args") {
        Value::List(items) => assert_eq!(items.len(), 2),
        other => panic!("not a list: {:?}", other),
    }

    let action = driver.run_script("3", CompileOutcome::Compiled);
    assert!(matches!(action, Ok((Listing::Silent, RunAction::RunChunk))));
    assert_eq!(driver.script(), "3");
    match entry(&driver.env(), "args") {
        Value::List(items) => assert!(items.is_empty()),
        other => panic!("not a list: {:?}", other),
    }
}

#[test]
fn a_fault_of_the_value_model_becomes_a_fault_of_the_machine() {
    let fault = vm_fault(ValueError::UnsupportedComparison, 9);
    assert_eq!(
        format_fault("a < b", &fault, None),
        "Runtime error at instruction 9: comparison unsupported for these values\n"
    );
    let span = Span {
        start: Position { line: 1, column: 1 },
        end: Position { line: 1, column: 6 },
    };
    assert_eq!(
        format_fault("a < b", &fault, Some(span)),
        "comparison unsupported for these values\n --> 1:1\n   |\n 1 | a < b\n   | ^^^^^"
    );
}
