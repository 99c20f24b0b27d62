use termapps::zoio::{NumberText, RunStep, Var, Zoio};

fn number(n: f64) -> NumberText {
    NumberText { display: n.to_string(), debug: format!("{:?}", n) }
}

/// Runs one line the way the command-line program does, with canned input.
fn run_line(z: &mut Zoio, line: &str, input: &mut Vec<String>, out: &mut String) -> Result<String, String> {
    let code = line.to_string();
    let mut step = z.run(&code);
    loop {
        step = match step {
            RunStep::Finished(r) => return r,
            RunStep::Print(t) => {
                out.push_str(&t);
                z.resume_after_output(&code)
            }
            RunStep::PrintLine(t) => {
                out.push_str(&t);
                out.push('\n');
                z.resume_after_output(&code)
            }
            RunStep::Flush => z.resume_after_output(&code),
            RunStep::ReadLine(name) => {
                let l = input.remove(0);
                z.resume_after_read_line(&code, name, l)
            }
            RunStep::Classify(v) => {
                let parsed = v.parse::<f64>().ok().map(number);
                let mut ns = fasteval::EmptyNamespace;
                let evaluated = fasteval::ez_eval(&v, &mut ns).ok().map(number);
                z.resume_after_classify(&code, parsed, evaluated)
            }
        }
    }
}

fn var_display(z: &Zoio, name: &str) -> Option<String> {
    z.vars.iter().find(|(n, _)| n == name).map(|(_, v)| v.display_text())
}

#[test]
fn new_interpreter() {
    let z = Zoio::new();
    assert!(z.imports.is_empty());
    assert!(z.vars.is_empty());
    assert!(z.funcs.is_empty());
    assert_eq!(z.current_line, 1);
}

#[test]
fn blank_line_is_nothing() {
    let mut z = Zoio::new();
    let (mut i, mut o) = (vec![], String::new());
    assert_eq!(run_line(&mut z, "   \t", &mut i, &mut o), Ok("Nothing".to_string()));
    assert_eq!(z.current_line, 1);
}

#[test]
fn variables_are_set_and_read() {
    let mut z = Zoio::new();
    let (mut i, mut o) = (vec![], String::new());
    assert_eq!(run_line(&mut z, "var x = 5", &mut i, &mut o), Ok("Nothing".to_string()));
    assert_eq!(run_line(&mut z, "x", &mut i, &mut o), Ok("5".to_string()));
    assert_eq!(run_line(&mut z, "var x = 2 + 3.5", &mut i, &mut o), Ok("Nothing".to_string()));
    assert_eq!(run_line(&mut z, "x", &mut i, &mut o), Ok("5.5".to_string()));
    assert_eq!(run_line(&mut z, "var s = \"hello\"", &mut i, &mut o), Ok("Nothing".to_string()));
    assert_eq!(run_line(&mut z, "s", &mut i, &mut o), Ok("hello".to_string()));
    assert_eq!(run_line(&mut z, "var n = Nothing", &mut i, &mut o), Ok("Nothing".to_string()));
    assert!(matches!(z.vars.iter().find(|(k, _)| k == "n").unwrap().1, Var::Nothing));
    assert_eq!(run_line(&mut z, "unknown", &mut i, &mut o), Ok("Nothing".to_string()));
    assert_eq!(z.vars.len(), 3);
    assert_eq!(z.current_line, 9);
}

#[test]
fn strings_substitute_variables() {
    let mut z = Zoio::new();
    let (mut i, mut o) = (vec![], String::new());
    run_line(&mut z, "var name = world", &mut i, &mut o).unwrap();
    run_line(&mut z, "var msg = \"hi ${name} and $name\"", &mut i, &mut o).unwrap();
    assert_eq!(var_display(&z, "msg"), Some("hi world and world".to_string()));
}

#[test]
fn var_errors() {
    let mut z = Zoio::new();
    let (mut i, mut o) = (vec![], String::new());
    assert_eq!(run_line(&mut z, "var x", &mut i, &mut o), Err("missing variable name or value".to_string()));
    assert_eq!(run_line(&mut z, "var t = \"abc", &mut i, &mut o), Err("unterminated string".to_string()));
    assert_eq!(run_line(&mut z, "import", &mut i, &mut o), Err("missing module to import".to_string()));
    assert_eq!(z.current_line, 1);
}

#[test]
fn io_needs_import() {
    let mut z = Zoio::new();
    let (mut i, mut o) = (vec![], String::new());
    assert_eq!(
        run_line(&mut z, "io.Println(\"a\")", &mut i, &mut o),
        Err("undefined object `io`. Please consider importing io.".to_string())
    );
    assert_eq!(run_line(&mut z, "import io", &mut i, &mut o), Ok("Nothing".to_string()));
    assert_eq!(z.imports, vec!["io".to_string()]);
    assert_eq!(run_line(&mut z, "import math", &mut i, &mut o), Ok("Nothing".to_string()));
    assert_eq!(z.imports, vec!["io".to_string()]);
}

#[test]
fn printing() {
    let mut z = Zoio::new();
    let (mut i, mut o) = (vec![], String::new());
    run_line(&mut z, "import io", &mut i, &mut o).unwrap();
    run_line(&mut z, "var s = \"hello\"", &mut i, &mut o).unwrap();
    assert_eq!(run_line(&mut z, "io.Println(\"hi $s\")", &mut i, &mut o), Ok("Nothing".to_string()));
    assert_eq!(run_line(&mut z, "io.Print(s)", &mut i, &mut o), Ok("Nothing".to_string()));
    assert_eq!(run_line(&mut z, "io.Flush()", &mut i, &mut o), Ok("Nothing".to_string()));
    assert_eq!(o, "hi hello\nhello");
}

#[test]
fn io_errors() {
    let mut z = Zoio::new();
    let (mut i, mut o) = (vec![], String::new());
    run_line(&mut z, "import io", &mut i, &mut o).unwrap();
    run_line(&mut z, "var x = 5", &mut i, &mut o).unwrap();
    assert_eq!(
        run_line(&mut z, "io.Println(x)", &mut i, &mut o),
        Err("Print Functions requires string. but Number(5.0) has provided.".to_string())
    );
    assert_eq!(run_line(&mut z, "io.Foo(1)", &mut i, &mut o), Err("undefined function Foo".to_string()));
    assert_eq!(
        run_line(&mut z, "io.Println", &mut i, &mut o),
        Err("Println requires at last 1 argument".to_string())
    );
    assert_eq!(run_line(&mut z, "io.Println(\"a\"", &mut i, &mut o), Err("unterminated (".to_string()));
    assert_eq!(run_line(&mut z, "io.ReadLine(y)", &mut i, &mut o), Err("unknown variable: y".to_string()));
    assert!(o.is_empty());
}

#[test]
fn reading_a_line_sets_the_variable() {
    let mut z = Zoio::new();
    let (mut i, mut o) = (vec!["typed text".to_string()], String::new());
    run_line(&mut z, "import io", &mut i, &mut o).unwrap();
    run_line(&mut z, "var y = 0", &mut i, &mut o).unwrap();
    assert_eq!(run_line(&mut z, "io.ReadLine(y)", &mut i, &mut o), Ok("Nothing".to_string()));
    assert_eq!(var_display(&z, "y"), Some("typed text".to_string()));
    assert_eq!(z.vars.len(), 1);
}

#[test]
fn format_helpers() {
    let mut z = Zoio::new();
    let (mut i, mut o) = (vec![], String::new());
    run_line(&mut z, "var a = 1", &mut i, &mut o).unwrap();
    assert_eq!(z.strfmt("\"$a and ${a}\""), "1 and 1");
    assert_eq!(z.strfmt("$b"), "$b");
    assert_eq!(z.strclean("\"x\""), "x");
    assert_eq!(z.strclean("\""), "");
    assert_eq!(z.strclean("x\""), "x\"");
}

#[test]
fn value_texts() {
    assert_eq!(Var::String("a".to_string()).display_text(), "a");
    assert_eq!(Var::Nothing.display_text(), "Nothing");
    assert_eq!(Var::Number(number(2.0)).display_text(), "2");
    assert_eq!(Var::Number(number(2.0)).debug_text(), "Number(2.0)");
    assert_eq!(Var::Other("q\"t".to_string()).debug_text(), "Other(\"q\\\"t\")");
    assert_eq!(Var::String("s".to_string()).debug_text(), "String(\"s\")");
    assert_eq!(Var::Nothing.debug_text(), "Nothing");
    assert_eq!(Var::Other("o".to_string()).display_text(), "o");
}

#[test]
fn runnable_lines() {
    let mut z = Zoio::new();
    assert!(z.runnable_line(&"io".to_string()));
    assert!(!z.runnable_line(&"var = 5".to_string()));
    let (mut i, mut o) = (vec![], String::new());
    run_line(&mut z, "import io", &mut i, &mut o).unwrap();
    assert!(!z.runnable_line(&"io".to_string()));
    assert!(!z.runnable_line(&"var = 5".to_string()));
    assert!(z.runnable_line(&"var x = 5".to_string()));
    assert!(z.runnable_line(&"var = \"5".to_string()));
    assert!(z.runnable_line(&"io.Println(\"x\")".to_string()));
}

#[test]
fn failed_lines_change_nothing() {
    let mut z = Zoio::new();
    let (mut i, mut o) = (vec![], String::new());
    run_line(&mut z, "var a = 1", &mut i, &mut o).unwrap();
    let line = z.current_line;
    assert!(run_line(&mut z, "io.Println(a)", &mut i, &mut o).is_err());
    assert!(run_line(&mut z, "var b", &mut i, &mut o).is_err());
    assert_eq!(z.current_line, line);
    assert_eq!(z.vars.len(), 1);
    assert!(z.imports.is_empty());
}
