use vstd::prelude::*;
use crate::text::{
    char_views, chars_eq, chars_eq_str, chars_of, find_char, first_index, replace_all,
    replace_chars, split_chars, split_on, split_words, string_of, sub_chars, trim, trim_chars, words,
};

verus! {

// ================================================================ values

/// How a number prints: `display` is its `{}` text and `debug` its `{:?}` text.
/// Numbers are made outside the interpreter (by parsing or evaluating an
/// expression); the interpreter only ever prints them.
#[derive(Clone)]
pub struct NumberText {
    pub display: String,
    pub debug: String,
}

/// The value of a variable.
#[derive(Clone)]
pub enum Var {
    String(String),
    Number(NumberText),
    Other(String),
    Nothing,
}

/// A variable's value as plain character sequences.
pub enum VarView {
    String(Seq<char>),
    /// `{}` text, then `{:?}` text.
    Number(Seq<char>, Seq<char>),
    Other(Seq<char>),
    Nothing,
}

impl View for NumberText {
    type V = (Seq<char>, Seq<char>);

    open spec fn view(&self) -> (Seq<char>, Seq<char>) {
        (self.display@, self.debug@)
    }
}

impl View for Var {
    type V = VarView;

    open spec fn view(&self) -> VarView {
        match self {
            Var::String(s) => VarView::String(s@),
            Var::Number(n) => VarView::Number(n.display@, n.debug@),
            Var::Other(o) => VarView::Other(o@),
            Var::Nothing => VarView::Nothing,
        }
    }
}

/// How a value prints with `{}`.
pub open spec fn var_display(v: VarView) -> Seq<char> {
    match v {
        VarView::String(s) => s,
        VarView::Number(d, _) => d,
        VarView::Other(o) => o,
        VarView::Nothing => "Nothing"@,
    }
}

/// The `{:?}` text of a string: quoted, with std's escapes.
pub uninterp spec fn str_debug(s: Seq<char>) -> Seq<char>;

/// How a value prints with `{:?}`.
pub open spec fn var_debug(v: VarView) -> Seq<char> {
    match v {
        VarView::String(s) => "String("@ + str_debug(s) + ")"@,
        VarView::Number(_, g) => "Number("@ + g + ")"@,
        VarView::Other(o) => "Other("@ + str_debug(o) + ")"@,
        VarView::Nothing => "Nothing"@,
    }
}

/// The `{:?}` text of a string.
///
/// Trusted: formats with std's `Debug` for `str`, which depends on the
/// characters alone (quotes and escapes); the text itself is left unstated.
#[verifier::external_body]
fn debug_quoted(s: &str) -> (r: String)
    ensures
        r@ == str_debug(s@),
{
    format!("{:?}", s)
}

// ================================================================ variables

/// Variables as (name, value) pairs.
pub open spec fn vars_view(v: Seq<(String, Var)>) -> Seq<(Seq<char>, VarView)> {
    v.map_values(|e: (String, Var)| (e.0@, e.1@))
}

/// Position of the variable `name` (the last entry of that name), or -1.
pub open spec fn find_var(vars: Seq<(Seq<char>, VarView)>, name: Seq<char>) -> int
    decreases vars.len(),
{
    if vars.len() == 0 {
        -1
    } else if vars.last().0 == name {
        vars.len() - 1
    } else {
        find_var(vars.drop_last(), name)
    }
}

/// `find_var` gives -1 when no entry has the name, else the last entry that has it.
pub proof fn lemma_find_var(vars: Seq<(Seq<char>, VarView)>, name: Seq<char>)
    ensures
        -1 <= find_var(vars, name) < vars.len(),
        find_var(vars, name) >= 0 ==> vars[find_var(vars, name)].0 == name,
        forall|k: int| find_var(vars, name) < k < vars.len() ==> vars[k].0 != name,
    decreases vars.len(),
{
    if vars.len() > 0 && vars.last().0 != name {
        lemma_find_var(vars.drop_last(), name);
        assert forall|k: int| find_var(vars, name) < k < vars.len() implies vars[k].0 != name by {
            if k < vars.len() - 1 {
                assert(vars[k] == vars.drop_last()[k]);
            }
        }
    }
}

/// The value of the variable `name`, if there is one.
pub open spec fn lookup_var(vars: Seq<(Seq<char>, VarView)>, name: Seq<char>) -> Option<VarView> {
    if find_var(vars, name) >= 0 {
        Some(vars[find_var(vars, name)].1)
    } else {
        None
    }
}

/// The variables after setting `name` to `v`: its entry is updated in
/// place, or a new entry is added at the end.
pub open spec fn insert_var(vars: Seq<(Seq<char>, VarView)>, name: Seq<char>, v: VarView) -> Seq<
    (Seq<char>, VarView),
> {
    if find_var(vars, name) >= 0 {
        vars.update(find_var(vars, name), (name, v))
    } else {
        vars.push((name, v))
    }
}

/// Every name occurs at most once.
pub open spec fn names_distinct(vars: Seq<(Seq<char>, VarView)>) -> bool {
    forall|i: int, j: int| 0 <= i < j < vars.len() ==> vars[i].0 != vars[j].0
}

/// Reading a variable right after setting it gives the value set, and
/// setting one variable leaves every other variable as it was.
pub proof fn lemma_insert_then_lookup(
    vars: Seq<(Seq<char>, VarView)>,
    name: Seq<char>,
    v: VarView,
    other: Seq<char>,
)
    ensures
        lookup_var(insert_var(vars, name, v), name) == Some(v),
        other != name ==> lookup_var(insert_var(vars, name, v), other) == lookup_var(vars, other),
{
    lemma_find_var(vars, name);
    lemma_find_var(vars, other);
    let after = insert_var(vars, name, v);
    lemma_find_var(after, name);
    lemma_find_var(after, other);
    if find_var(vars, name) >= 0 {
        let i = find_var(vars, name);
        assert(after[i].0 == name);
        if find_var(after, name) != i {
            assert(after[find_var(after, name)].0 == name);
            if find_var(after, name) < i {
                assert(after[i].0 != name);
            }
        }
        if other != name {
            let j = find_var(vars, other);
            let k = find_var(after, other);
            if j >= 0 {
                assert(after[j] == vars[j]);
            }
            if k >= 0 {
                assert(k != i);
                assert(after[k] == vars[k]);
            }
            assert(j == k) by {
                if j < k {
                    assert(vars[k].0 == other);
                }
                if k < j {
                    assert(after[j].0 == other);
                }
            }
        }
    } else {
        assert(after[vars.len() as int].0 == name);
        if other != name {
            let j = find_var(vars, other);
            let k = find_var(after, other);
            if k >= 0 {
                assert(k < vars.len());
                assert(after[k] == vars[k]);
            }
            if j >= 0 {
                assert(after[j] == vars[j]);
            }
            assert(j == k) by {
                if j < k {
                    assert(vars[k].0 == other);
                }
                if k < j {
                    assert(after[j].0 == other);
                }
            }
        }
    }
}

/// Setting a variable never makes a name occur twice.
pub proof fn lemma_insert_keeps_distinct(vars: Seq<(Seq<char>, VarView)>, name: Seq<char>, v: VarView)
    requires
        names_distinct(vars),
    ensures
        names_distinct(insert_var(vars, name, v)),
{
    lemma_find_var(vars, name);
    let after = insert_var(vars, name, v);
    if find_var(vars, name) < 0 {
        assert forall|i: int, j: int| 0 <= i < j < after.len() implies after[i].0 != after[j].0 by {
            if j == vars.len() {
                assert(vars[i].0 != name);
            }
        }
    }
}

// ================================================================ formatting

/// `s` with `${name}` and then `$name` replaced by `value`.
pub open spec fn subst_var(s: Seq<char>, name: Seq<char>, value: Seq<char>) -> Seq<char> {
    replace_all(
        replace_all(s, seq!['$', '{'] + name + seq!['}'], value),
        seq!['$'] + name,
        value,
    )
}

/// `s` with the variables substituted one after another, in order.
pub open spec fn subst_all(s: Seq<char>, vars: Seq<(Seq<char>, VarView)>) -> Seq<char>
    decreases vars.len(),
{
    if vars.len() == 0 {
        s
    } else {
        subst_all(subst_var(s, vars[0].0, var_display(vars[0].1)), vars.drop_first())
    }
}

/// A text in double quotes loses its first and last character.
pub open spec fn strclean_spec(s: Seq<char>) -> Seq<char> {
    if s.len() > 0 && s[0] == '"' && s.last() == '"' {
        if s.len() >= 2 {
            s.subrange(1, s.len() - 1)
        } else {
            seq![]
        }
    } else {
        s
    }
}

/// Variables substituted into `s`, then the quotes removed.
pub open spec fn strfmt_spec(vars: Seq<(Seq<char>, VarView)>, s: Seq<char>) -> Seq<char> {
    strclean_spec(subst_all(s, vars))
}

// ================================================================ interpreter

/// The interpreter: imported modules, variables, (unused) functions, and
/// the number of the next line.
pub struct Zoio {
    pub imports: Vec<String>,
    pub vars: Vec<(String, Var)>,
    pub funcs: Vec<(String, String)>,
    pub current_line: u64,
}

/// The interpreter state as plain values.
pub struct ZoioState {
    pub imports: Seq<Seq<char>>,
    pub vars: Seq<(Seq<char>, VarView)>,
    pub line: u64,
}

/// Where running a line stands: finished, or waiting for the terminal side
/// to do something and resume.
pub enum RunStep {
    /// The line is done, with its result or error message.
    Finished(Result<String, String>),
    /// Print the text, then resume with `resume_after_output`.
    Print(String),
    /// Print the text and a line break, then resume with `resume_after_output`.
    PrintLine(String),
    /// Flush standard output, then resume with `resume_after_output`.
    Flush,
    /// Read a line for the named variable, then resume with `resume_after_read_line`.
    ReadLine(String),
    /// Read the text as a number (parsed, and evaluated as an expression),
    /// then resume with `resume_after_classify`.
    Classify(String),
}

/// A run step as plain values.
pub enum StepView {
    Finished(Result<Seq<char>, Seq<char>>),
    Print(Seq<char>),
    PrintLine(Seq<char>),
    Flush,
    ReadLine(Seq<char>),
    Classify(Seq<char>),
}

impl View for RunStep {
    type V = StepView;

    open spec fn view(&self) -> StepView {
        match self {
            RunStep::Finished(Ok(r)) => StepView::Finished(Ok(r@)),
            RunStep::Finished(Err(e)) => StepView::Finished(Err(e@)),
            RunStep::Print(t) => StepView::Print(t@),
            RunStep::PrintLine(t) => StepView::PrintLine(t@),
            RunStep::Flush => StepView::Flush,
            RunStep::ReadLine(n) => StepView::ReadLine(n@),
            RunStep::Classify(v) => StepView::Classify(v@),
        }
    }
}

/// What the `io.` part of a line asks for.
pub enum IoPlan {
    NotIo,
    Fail(Seq<char>),
    Print(Seq<char>),
    PrintLine(Seq<char>),
    Flush,
    ReadLine(Seq<char>),
}

/// The arguments of an `io.` call: the pieces after each '(' in the text
/// between the first and second '.', with the closing ')' of the last one
/// removed.
pub open spec fn io_args(code: Seq<char>) -> Seq<Seq<char>> {
    let args0 = split_on(split_on(code, '.')[1], '(').drop_first();
    let last = args0.last();
    if args0.len() > 0 && last.len() > 0 {
        args0.update(args0.len() - 1, last.drop_last())
    } else {
        args0
    }
}

/// The name of an `io.` function.
pub open spec fn io_func(code: Seq<char>) -> Seq<char> {
    split_on(split_on(code, '.')[1], '(')[0]
}

/// The text an `io.Print`/`io.Println` call prints: its arguments run
/// together (the first replaced by the variable of that name when it holds a
/// string), variables substituted, quotes removed twice.
pub open spec fn print_text(st: ZoioState, args: Seq<Seq<char>>) -> Seq<char> {
    strclean_spec(strfmt_spec(st.vars, args.flatten()))
}

/// The `io.` part of running `code`.
pub open spec fn io_plan(st: ZoioState, code: Seq<char>) -> IoPlan {
    let objs = split_on(code, '.');
    if objs[0] != "io"@ {
        IoPlan::NotIo
    } else if !st.imports.contains("io"@) {
        IoPlan::Fail("undefined object `io`. Please consider importing io."@)
    } else {
        let raw = split_on(objs[1], '(');
        let func = raw[0];
        let args0 = raw.drop_first();
        if args0.len() == 0 {
            IoPlan::Fail(func + " requires at last 1 argument"@)
        } else if args0.last().len() > 0 && args0.last().last() != ')' {
            IoPlan::Fail("unterminated ("@)
        } else {
            let args = io_args(code);
            if func == "Println"@ || func == "Print"@ {
                let text = match lookup_var(st.vars, args[0]) {
                    Some(VarView::String(v)) => Some(print_text(st, args.update(0, v))),
                    Some(_) => None,
                    None => Some(print_text(st, args)),
                };
                match text {
                    Some(t) => if func == "Println"@ {
                        IoPlan::PrintLine(t)
                    } else {
                        IoPlan::Print(t)
                    },
                    None => IoPlan::Fail(
                        "Print Functions requires string. but "@ + var_debug(
                            lookup_var(st.vars, args[0]).unwrap(),
                        ) + " has provided."@,
                    ),
                }
            } else if func == "Flush"@ {
                IoPlan::Flush
            } else if func == "ReadLine"@ {
                if lookup_var(st.vars, args[0]) is None {
                    IoPlan::Fail("unknown variable: "@ + args[0])
                } else {
                    IoPlan::ReadLine(args[0])
                }
            } else {
                IoPlan::Fail("undefined function "@ + func)
            }
        }
    }
}

/// The state with the line counter moved on.
pub open spec fn next_line(st: ZoioState) -> ZoioState {
    ZoioState { line: (st.line + 1) as u64, ..st }
}

/// The value text of a `var` line: what follows the first '=', trimmed.
pub open spec fn var_value(code: Seq<char>) -> Seq<char> {
    trim(code.skip(first_index(code, '=').unwrap() + 1int))
}

/// The name of a `var` line: the second word before the first '='.
pub open spec fn var_name(code: Seq<char>) -> Seq<char> {
    words(trim(code.take(first_index(code, '=').unwrap() as int)), false)[1]
}

/// A `var` line that gets as far as naming its variable.
pub open spec fn var_line_reaches_name(code: Seq<char>) -> bool {
    &&& words(code, false).len() > 0
    &&& words(code, false)[0] == "var"@
    &&& first_index(code, '=') is Some
    &&& !(var_value(code).len() > 0 && var_value(code)[0] == '"' && !(code.len() > 0
        && code.last() == '"'))
}

/// Running `code` never indexes past what is there: an `io` line with `io`
/// imported has a '.', and a `var` line that gets that far names its
/// variable (at least two words before the '=').
pub open spec fn runnable(st: ZoioState, code: Seq<char>) -> bool {
    &&& (split_on(code, '.')[0] == "io"@ && st.imports.contains("io"@)) ==> split_on(
        code,
        '.',
    ).len() >= 2
    &&& var_line_reaches_name(code) ==> words(
        trim(code.take(first_index(code, '=').unwrap() as int)),
        false,
    ).len() >= 2
    &&& st.line < u64::MAX
}

/// The rest of running a line, after its `io.` part: `import`, `var`, or
/// reading a variable's value as the result. Gives the new state and step.
pub open spec fn rest_step(st: ZoioState, code: Seq<char>) -> (ZoioState, StepView) {
    let w = words(code, false);
    if w[0] == "import"@ {
        if w.len() < 2 {
            (st, StepView::Finished(Err("missing module to import"@)))
        } else {
            let imports = if w[1] == "io"@ {
                st.imports.push("io"@)
            } else {
                st.imports
            };
            (next_line(ZoioState { imports, ..st }), StepView::Finished(Ok("Nothing"@)))
        }
    } else if w[0] == "var"@ {
        if first_index(code, '=') is None {
            (st, StepView::Finished(Err("missing variable name or value"@)))
        } else if !var_line_reaches_name(code) {
            (st, StepView::Finished(Err("unterminated string"@)))
        } else {
            (st, StepView::Classify(var_value(code)))
        }
    } else {
        let result = match lookup_var(st.vars, w[0]) {
            Some(v) => var_display(v),
            None => "Nothing"@,
        };
        (next_line(st), StepView::Finished(Ok(result)))
    }
}

/// Running a line from the start: blank lines give "Nothing"; otherwise the
/// `io.` part, then the rest.
pub open spec fn run_step(st: ZoioState, code: Seq<char>) -> (ZoioState, StepView) {
    if words(code, false).len() == 0 {
        (st, StepView::Finished(Ok("Nothing"@)))
    } else {
        match io_plan(st, code) {
            IoPlan::NotIo => rest_step(st, code),
            IoPlan::Fail(m) => (st, StepView::Finished(Err(m))),
            IoPlan::Print(t) => (st, StepView::Print(t)),
            IoPlan::PrintLine(t) => (st, StepView::PrintLine(t)),
            IoPlan::Flush => (st, StepView::Flush),
            IoPlan::ReadLine(n) => (st, StepView::ReadLine(n)),
        }
    }
}

/// The value a `var` line assigns, given what the text reads as: the parsed
/// number, else `Nothing` for the word "Nothing", else the evaluated number,
/// else the text with variables substituted.
pub open spec fn var_assigned(
    st: ZoioState,
    value: Seq<char>,
    parsed: Option<(Seq<char>, Seq<char>)>,
    evaluated: Option<(Seq<char>, Seq<char>)>,
) -> VarView {
    match parsed {
        Some(n) => VarView::Number(n.0, n.1),
        None => if value == "Nothing"@ {
            VarView::Nothing
        } else {
            match evaluated {
                Some(n) => VarView::Number(n.0, n.1),
                None => VarView::String(strfmt_spec(st.vars, value)),
            }
        },
    }
}

/// The state after a `var` line has its value.
pub open spec fn var_state(
    st: ZoioState,
    code: Seq<char>,
    parsed: Option<(Seq<char>, Seq<char>)>,
    evaluated: Option<(Seq<char>, Seq<char>)>,
) -> ZoioState {
    next_line(
        ZoioState {
            vars: insert_var(
                st.vars,
                var_name(code),
                var_assigned(st, var_value(code), parsed, evaluated),
            ),
            ..st
        },
    )
}

/// Option of a number as plain values.
pub open spec fn number_view(n: Option<NumberText>) -> Option<(Seq<char>, Seq<char>)> {
    match n {
        Some(t) => Some(t@),
        None => None,
    }
}

/// A line that ends in an error leaves the interpreter as it was; a line
/// that waits on the terminal side has not changed it yet.
pub proof fn lemma_failed_line_changes_nothing(st: ZoioState, code: Seq<char>)
    ensures
        !(run_step(st, code).1 is Finished && run_step(st, code).1->Finished_0 is Ok)
            ==> run_step(st, code).0 == st,
        !(rest_step(st, code).1 is Finished && rest_step(st, code).1->Finished_0 is Ok)
            ==> rest_step(st, code).0 == st,
{
}

/// Running lines never makes a variable name occur twice.
pub proof fn lemma_steps_keep_names_distinct(
    st: ZoioState,
    code: Seq<char>,
    name: Seq<char>,
    line: Seq<char>,
    parsed: Option<(Seq<char>, Seq<char>)>,
    evaluated: Option<(Seq<char>, Seq<char>)>,
)
    requires
        names_distinct(st.vars),
    ensures
        names_distinct(run_step(st, code).0.vars),
        names_distinct(rest_step(st, code).0.vars),
        names_distinct(
            rest_step(
                ZoioState { vars: insert_var(st.vars, name, VarView::String(line)), ..st },
                code,
            ).0.vars,
        ),
        names_distinct(var_state(st, code, parsed, evaluated).vars),
{
    lemma_insert_keeps_distinct(st.vars, name, VarView::String(line));
    lemma_insert_keeps_distinct(
        st.vars,
        var_name(code),
        var_assigned(st, var_value(code), parsed, evaluated),
    );
}

// ================================================================ code

/// Appends the characters of `s` to `v`.
fn push_str(v: &mut Vec<char>, s: &str)
    ensures
        final(v)@ == old(v)@ + s@,
{
    let c = chars_of(s);
    push_chars(v, &c);
}

/// Appends the characters `c` to `v`.
fn push_chars(v: &mut Vec<char>, c: &Vec<char>)
    ensures
        final(v)@ == old(v)@ + c@,
{
    let ghost start = v@;
    let mut i: usize = 0;
    while i < c.len()
        invariant
            i <= c@.len(),
            v@ == start + c@.take(i as int),
        decreases c@.len() - i,
    {
        v.push(c[i]);
        assert(c@.take(i + 1) =~= c@.take(i as int).push(c@[i as int]));
        i = i + 1;
    }
    assert(c@.take(i as int) =~= c@);
}

impl Var {
    /// How the value prints with `{}`.
    pub fn display_text(&self) -> (r: String)
        ensures
            r@ == var_display(self@),
    {
        match self {
            Var::String(s) => s.clone(),
            Var::Number(n) => n.display.clone(),
            Var::Other(o) => o.clone(),
            Var::Nothing => "Nothing".to_owned(),
        }
    }

    /// How the value prints with `{:?}`.
    pub fn debug_text(&self) -> (r: String)
        ensures
            r@ == var_debug(self@),
    {
        let mut v: Vec<char> = Vec::new();
        match self {
            Var::String(s) => {
                push_str(&mut v, "String(");
                let q = debug_quoted(s.as_str());
                push_str(&mut v, q.as_str());
                push_str(&mut v, ")");
            },
            Var::Number(n) => {
                push_str(&mut v, "Number(");
                push_str(&mut v, n.debug.as_str());
                push_str(&mut v, ")");
            },
            Var::Other(o) => {
                push_str(&mut v, "Other(");
                let q = debug_quoted(o.as_str());
                push_str(&mut v, q.as_str());
                push_str(&mut v, ")");
            },
            Var::Nothing => {
                push_str(&mut v, "Nothing");
            },
        }
        assert(v@ =~= var_debug(self@));
        string_of(v.as_slice())
    }
}

/// A text in double quotes loses its first and last character.
fn strclean_chars(s: &Vec<char>) -> (r: Vec<char>)
    ensures
        r@ == strclean_spec(s@),
{
    let n = s.len();
    if n > 0 && s[0] == '"' && s[n - 1] == '"' {
        if n >= 2 {
            sub_chars(s, 1, n - 1)
        } else {
            Vec::new()
        }
    } else {
        sub_chars(s, 0, n)
    }
}

impl Zoio {
    /// The interpreter state as plain values.
    pub open spec fn state(&self) -> ZoioState {
        ZoioState {
            imports: self.imports@.map_values(|s: String| s@),
            vars: vars_view(self.vars@),
            line: self.current_line,
        }
    }

    /// A fresh interpreter: nothing imported, no variables, at line 1.
    pub fn new() -> (z: Zoio)
        ensures
            z.state().imports == Seq::<Seq<char>>::empty(),
            z.state().vars == Seq::<(Seq<char>, VarView)>::empty(),
            z.state().line == 1,
            z.funcs@ == Seq::<(String, String)>::empty(),
    {
        let z = Zoio { imports: Vec::new(), vars: Vec::new(), funcs: Vec::new(), current_line: 1 };
        assert(z.state().imports =~= Seq::<Seq<char>>::empty());
        assert(z.state().vars =~= Seq::<(Seq<char>, VarView)>::empty());
        z
    }

    /// Whether `io` has been imported.
    fn has_io_import(&self) -> (r: bool)
        ensures
            r == self.state().imports.contains("io"@),
    {
        let mut i: usize = 0;
        while i < self.imports.len()
            invariant
                i <= self.imports@.len(),
                forall|k: int| 0 <= k < i ==> self.imports@[k]@ != "io"@,
            decreases self.imports@.len() - i,
        {
            let c = chars_of(self.imports[i].as_str());
            if chars_eq_str(c.as_slice(), "io") {
                assert(self.state().imports[i as int] == "io"@);
                return true;
            }
            i = i + 1;
        }
        assert forall|k: int| 0 <= k < self.state().imports.len() implies self.state().imports[k]
            != "io"@ by {
            assert(self.state().imports[k] == self.imports@[k]@);
        }
        false
    }

    /// Position of the variable `name`, as `find_var` has it.
    fn find_var_index(&self, name: &Vec<char>) -> (r: Option<usize>)
        ensures
            match r {
                Some(i) => find_var(self.state().vars, name@) == i as int,
                None => find_var(self.state().vars, name@) == -1,
            },
    {
        let ghost vars = self.state().vars;
        let mut i: usize = self.vars.len();
        assert(vars.take(i as int) =~= vars);
        while i > 0
            invariant
                i <= self.vars@.len(),
                vars == self.state().vars,
                find_var(vars, name@) == find_var(vars.take(i as int), name@),
            decreases i,
        {
            i = i - 1;
            let c = chars_of(self.vars[i].0.as_str());
            let ghost t = vars.take(i + 1);
            assert(t.drop_last() =~= vars.take(i as int));
            assert(t.last() == vars[i as int]);
            assert(vars[i as int].0 == self.vars@[i as int].0@);
            if chars_eq(c.as_slice(), name.as_slice()) {
                return Some(i);
            }
        }
        None
    }

    /// Sets the variable `name` to `v`.
    fn set_var(&mut self, name: String, v: Var)
        ensures
            final(self).state() == (ZoioState {
                vars: insert_var(old(self).state().vars, name@, v@),
                ..old(self).state()
            }),
            final(self).funcs == old(self).funcs,
    {
        let ghost n = name@;
        let ghost vv = v@;
        let key = chars_of(name.as_str());
        proof {
            lemma_find_var(old(self).state().vars, n);
        }
        match self.find_var_index(&key) {
            Some(i) => {
                self.vars.set(i, (name, v));
                assert(self.state().vars =~= insert_var(old(self).state().vars, n, vv));
            },
            None => {
                self.vars.push((name, v));
                assert(self.state().vars =~= insert_var(old(self).state().vars, n, vv));
            },
        }
        assert(self.state().imports =~= old(self).state().imports);
    }

    /// The characters of `s` with every variable substituted, in order.
    fn subst_all_chars(&self, s: &Vec<char>) -> (r: Vec<char>)
        ensures
            r@ == subst_all(s@, self.state().vars),
    {
        let ghost vars = self.state().vars;
        let mut cur: Vec<char> = sub_chars(s, 0, s.len());
        let mut i: usize = 0;
        assert(vars.skip(0) =~= vars);
        assert(s@.subrange(0, s@.len() as int) =~= s@);
        while i < self.vars.len()
            invariant
                i <= self.vars@.len(),
                vars == self.state().vars,
                subst_all(s@, vars) == subst_all(cur@, vars.skip(i as int)),
            decreases self.vars@.len() - i,
        {
            let name = chars_of(self.vars[i].0.as_str());
            let value_s = self.vars[i].1.display_text();
            let value = chars_of(value_s.as_str());
            let mut p1: Vec<char> = Vec::new();
            p1.push('$');
            p1.push('{');
            push_chars(&mut p1, &name);
            p1.push('}');
            let mut p2: Vec<char> = Vec::new();
            p2.push('$');
            push_chars(&mut p2, &name);
            let step1 = replace_chars(&cur, &p1, &value);
            let next = replace_chars(&step1, &p2, &value);
            proof {
                let rest = vars.skip(i as int);
                assert(rest[0] == vars[i as int]);
                assert(vars[i as int] == (self.vars@[i as int].0@, self.vars@[i as int].1@));
                assert(p1@ =~= seq!['$', '{'] + name@ + seq!['}']);
                assert(p2@ =~= seq!['$'] + name@);
                assert(rest.drop_first() =~= vars.skip(i + 1));
                assert(next@ == subst_var(cur@, rest[0].0, var_display(rest[0].1)));
            }
            cur = next;
            i = i + 1;
        }
        assert(vars.skip(i as int) =~= seq![]);
        cur
    }

    /// Substitutes the variables into `s` and removes surrounding quotes.
    fn strfmt_chars(&self, s: &Vec<char>) -> (r: Vec<char>)
        ensures
            r@ == strfmt_spec(self.state().vars, s@),
    {
        let t = self.subst_all_chars(s);
        strclean_chars(&t)
    }

    /// `s` with `${name}` and `$name` replaced by each variable's value (in
    /// the order the variables were made), then surrounding double quotes removed.
    pub fn strfmt(&self, s: &str) -> (r: String)
        ensures
            r@ == strfmt_spec(self.state().vars, s@),
    {
        let c = chars_of(s);
        let r = self.strfmt_chars(&c);
        string_of(r.as_slice())
    }

    /// A text in double quotes loses its first and last character; any
    /// other text stays.
    pub fn strclean(&self, s: &str) -> (r: String)
        ensures
            r@ == strclean_spec(s@),
    {
        let c = chars_of(s);
        let r = strclean_chars(&c);
        string_of(r.as_slice())
    }
}

/// The pieces run together.
fn concat_all(ps: &Vec<Vec<char>>) -> (r: Vec<char>)
    ensures
        r@ == char_views(ps@).flatten(),
{
    let ghost v = char_views(ps@);
    let mut out: Vec<char> = Vec::new();
    let mut i: usize = 0;
    assert(v.skip(0) =~= v);
    while i < ps.len()
        invariant
            i <= ps@.len(),
            v == char_views(ps@),
            v.flatten() == out@ + v.skip(i as int).flatten(),
        decreases ps@.len() - i,
    {
        let ghost before = out@;
        push_chars(&mut out, &ps[i]);
        assert(v.skip(i as int).first() == ps@[i as int]@);
        assert(v.skip(i as int).drop_first() =~= v.skip(i + 1));
        assert(out@ + v.skip(i + 1).flatten() =~= before + v.skip(i as int).flatten());
        i = i + 1;
    }
    assert(v.skip(i as int) =~= seq![]);
    assert(out@ + v.skip(i as int).flatten() =~= out@);
    out
}

/// A finished step with the given message as the error.
fn fail_with(msg: Vec<char>) -> (r: RunStep)
    ensures
        r@ == StepView::Finished(Err(msg@)),
{
    RunStep::Finished(Err(string_of(msg.as_slice())))
}

/// A finished step with the text as the error.
fn fail_str(msg: &str) -> (r: RunStep)
    ensures
        r@ == StepView::Finished(Err(msg@)),
{
    RunStep::Finished(Err(msg.to_owned()))
}

impl Zoio {
    /// The `io.` part of a line that begins with `io.`.
    fn io_step(&self, Ghost(code): Ghost<Seq<char>>, objs: &Vec<Vec<char>>) -> (r: RunStep)
        requires
            char_views(objs@) == split_on(code, '.'),
            split_on(code, '.')[0] == "io"@,
            runnable(self.state(), code),
        ensures
            match io_plan(self.state(), code) {
                IoPlan::NotIo => false,
                IoPlan::Fail(m) => r@ == StepView::Finished(Err(m)),
                IoPlan::Print(t) => r@ == StepView::Print(t),
                IoPlan::PrintLine(t) => r@ == StepView::PrintLine(t),
                IoPlan::Flush => r@ == StepView::Flush,
                IoPlan::ReadLine(n) => r@ == StepView::ReadLine(n),
            },
    {
        let ghost st = self.state();
        if !self.has_io_import() {
            return fail_str("undefined object `io`. Please consider importing io.");
        }
        assert(objs@[1]@ == split_on(code, '.')[1]);
        let mut args = split_chars(&objs[1], '(');
        proof {
            crate::text::lemma_split_len(objs@[1]@, '(');
        }
        let ghost raw = char_views(args@);
        let func = args.remove(0);
        assert(char_views(args@) =~= raw.drop_first());
        assert(func@ == io_func(code));
        if args.len() == 0 {
            let mut m = func;
            push_str(&mut m, " requires at last 1 argument");
            return fail_with(m);
        }
        let last_i = args.len() - 1;
        let last_len = args[last_i].len();
        if last_len > 0 {
            if args[last_i][last_len - 1] != ')' {
                return fail_str("unterminated (");
            }
            args[last_i].pop();
        }
        assert(char_views(args@) =~= io_args(code));
        assert(args@[0]@ == io_args(code)[0]);
        proof {
            lemma_find_var(st.vars, io_args(code)[0]);
        }
        if chars_eq_str(func.as_slice(), "Println") || chars_eq_str(func.as_slice(), "Print") {
            match self.find_var_index(&args[0]) {
                Some(i) => {
                    assert(st.vars[i as int] == (self.vars@[i as int].0@, self.vars@[i as int].1@));
                    match &self.vars[i].1 {
                        Var::String(sv) => {
                            let replaced = chars_of(sv.as_str());
                            args.set(0, replaced);
                        },
                        other => {
                            let mut m: Vec<char> = Vec::new();
                            push_str(&mut m, "Print Functions requires string. but ");
                            let d = other.debug_text();
                            push_str(&mut m, d.as_str());
                            push_str(&mut m, " has provided.");
                            return fail_with(m);
                        },
                    }
                },
                None => {},
            }
            let content = concat_all(&args);
            let formatted = self.strfmt_chars(&content);
            let text = strclean_chars(&formatted);
            proof {
                match lookup_var(st.vars, io_args(code)[0]) {
                    Some(VarView::String(v)) => {
                        assert(char_views(args@) =~= io_args(code).update(0, v));
                    },
                    _ => {
                        assert(char_views(args@) =~= io_args(code));
                    },
                }
            }
            if chars_eq_str(func.as_slice(), "Println") {
                RunStep::PrintLine(string_of(text.as_slice()))
            } else {
                RunStep::Print(string_of(text.as_slice()))
            }
        } else if chars_eq_str(func.as_slice(), "Flush") {
            RunStep::Flush
        } else if chars_eq_str(func.as_slice(), "ReadLine") {
            match self.find_var_index(&args[0]) {
                Some(_) => RunStep::ReadLine(string_of(args[0].as_slice())),
                None => {
                    let mut m: Vec<char> = Vec::new();
                    push_str(&mut m, "unknown variable: ");
                    push_chars(&mut m, &args[0]);
                    fail_with(m)
                },
            }
        } else {
            let mut m: Vec<char> = Vec::new();
            push_str(&mut m, "undefined function ");
            push_chars(&mut m, &func);
            fail_with(m)
        }
    }

    /// The rest of a line after its `io.` part.
    fn rest(&mut self, chars: &Vec<char>) -> (r: RunStep)
        requires
            words(chars@, false).len() > 0,
            runnable(old(self).state(), chars@),
        ensures
            (final(self).state(), r@) == rest_step(old(self).state(), chars@),
            final(self).funcs == old(self).funcs,
    {
        let ghost st = self.state();
        let ws = split_words(chars, false);
        assert(ws@[0]@ == words(chars@, false)[0]);
        if chars_eq_str(ws[0].as_slice(), "import") {
            if ws.len() < 2 {
                return fail_str("missing module to import");
            }
            assert(ws@[1]@ == words(chars@, false)[1]);
            if chars_eq_str(ws[1].as_slice(), "io") {
                self.imports.push("io".to_owned());
            }
            self.current_line = self.current_line + 1;
            proof {
                let w = words(chars@, false);
                let imports = if w[1] == "io"@ {
                    st.imports.push("io"@)
                } else {
                    st.imports
                };
                assert(self.state().imports =~= imports);
                assert(self.state().vars =~= st.vars);
            }
            RunStep::Finished(Ok("Nothing".to_owned()))
        } else if chars_eq_str(ws[0].as_slice(), "var") {
            match find_char(chars, '=') {
                None => fail_str("missing variable name or value"),
                Some(p) => {
                    proof {
                        crate::text::lemma_first_index(chars@, '=');
                    }
                    let n = chars.len();
                    let after = sub_chars(chars, p + 1, n);
                    assert(after@ =~= chars@.skip(p + 1int));
                    let value = trim_chars(&after);
                    if value.len() > 0 && value[0] == '"' && !(n > 0 && chars[n - 1] == '"') {
                        fail_str("unterminated string")
                    } else {
                        RunStep::Classify(string_of(value.as_slice()))
                    }
                },
            }
        } else {
            proof {
                lemma_find_var(st.vars, ws@[0]@);
            }
            let result = match self.find_var_index(&ws[0]) {
                Some(i) => {
                    assert(st.vars[i as int] == (self.vars@[i as int].0@, self.vars@[i as int].1@));
                    self.vars[i].1.display_text()
                },
                None => "Nothing".to_owned(),
            };
            self.current_line = self.current_line + 1;
            proof {
                assert(self.state().imports =~= st.imports);
                assert(self.state().vars =~= st.vars);
            }
            RunStep::Finished(Ok(result))
        }
    }

    /// Runs one line of a program, up to its end or to the first thing the
    /// terminal side must do (print, flush, read a line, or read a number);
    /// the matching `resume_*` call goes on from there.
    pub fn run(&mut self, code: &String) -> (r: RunStep)
        requires
            runnable(old(self).state(), code@),
        ensures
            (final(self).state(), r@) == run_step(old(self).state(), code@),
            final(self).funcs == old(self).funcs,
    {
        let chars = chars_of(code.as_str());
        let ws = split_words(&chars, false);
        if ws.len() == 0 {
            return RunStep::Finished(Ok("Nothing".to_owned()));
        }
        let objs = split_chars(&chars, '.');
        proof {
            crate::text::lemma_split_len(code@, '.');
        }
        assert(objs@[0]@ == split_on(code@, '.')[0]);
        if chars_eq_str(objs[0].as_slice(), "io") {
            self.io_step(Ghost(code@), &objs)
        } else {
            self.rest(&chars)
        }
    }

    /// Goes on with a line after its print or flush was done.
    pub fn resume_after_output(&mut self, code: &String) -> (r: RunStep)
        requires
            words(code@, false).len() > 0,
            runnable(old(self).state(), code@),
        ensures
            (final(self).state(), r@) == rest_step(old(self).state(), code@),
            final(self).funcs == old(self).funcs,
    {
        let chars = chars_of(code.as_str());
        self.rest(&chars)
    }

    /// Goes on with a line after `line` was read for the variable `name`:
    /// the variable now holds the line as a string.
    pub fn resume_after_read_line(&mut self, code: &String, name: String, line: String) -> (r:
        RunStep)
        requires
            words(code@, false).len() > 0,
            runnable(old(self).state(), code@),
        ensures
            (final(self).state(), r@) == rest_step(
                ZoioState {
                    vars: insert_var(old(self).state().vars, name@, VarView::String(line@)),
                    ..old(self).state()
                },
                code@,
            ),
            final(self).funcs == old(self).funcs,
    {
        self.set_var(name, Var::String(line));
        let chars = chars_of(code.as_str());
        self.rest(&chars)
    }

    /// Finishes a `var` line once its value text has been read as a number
    /// (`parsed`) and as an expression (`evaluated`), each `None` when that failed.
    pub fn resume_after_classify(
        &mut self,
        code: &String,
        parsed: Option<NumberText>,
        evaluated: Option<NumberText>,
    ) -> (r: RunStep)
        requires
            var_line_reaches_name(code@),
            runnable(old(self).state(), code@),
        ensures
            final(self).state() == var_state(
                old(self).state(),
                code@,
                number_view(parsed),
                number_view(evaluated),
            ),
            r@ == StepView::Finished(Ok("Nothing"@)),
            final(self).funcs == old(self).funcs,
    {
        let ghost st = self.state();
        let ghost pv = number_view(parsed);
        let ghost ev = number_view(evaluated);
        let chars = chars_of(code.as_str());
        let p = match find_char(&chars, '=') {
            Some(p) => p,
            None => {
                proof {
                    assert(false);
                }
                0
            },
        };
        proof {
            crate::text::lemma_first_index(chars@, '=');
        }
        let n = chars.len();
        let after = sub_chars(&chars, p + 1, n);
        assert(after@ =~= chars@.skip(p + 1int));
        let value = trim_chars(&after);
        let v = match parsed {
            Some(n) => Var::Number(n),
            None => if chars_eq_str(value.as_slice(), "Nothing") {
                Var::Nothing
            } else {
                match evaluated {
                    Some(n) => Var::Number(n),
                    None => {
                        let f = self.strfmt_chars(&value);
                        Var::String(string_of(f.as_slice()))
                    },
                }
            },
        };
        assert(v@ == var_assigned(st, var_value(code@), pv, ev));
        let before = sub_chars(&chars, 0, p);
        assert(before@ =~= chars@.take(p as int));
        let trimmed = trim_chars(&before);
        let nw = split_words(&trimmed, false);
        assert(nw@[1]@ == var_name(code@));
        let name = string_of(nw[1].as_slice());
        self.set_var(name, v);
        self.current_line = self.current_line + 1;
        RunStep::Finished(Ok("Nothing".to_owned()))
    }
}

impl Zoio {
    /// Whether running `code` now stays within what the line holds (see
    /// `runnable`): a line for which this is false cannot be run.
    pub fn runnable_line(&self, code: &String) -> (r: bool)
        ensures
            r == runnable(self.state(), code@),
    {
        let chars = chars_of(code.as_str());
        let objs = split_chars(&chars, '.');
        proof {
            crate::text::lemma_split_len(code@, '.');
        }
        assert(objs@[0]@ == split_on(code@, '.')[0]);
        let io_ok = !(chars_eq_str(objs[0].as_slice(), "io") && self.has_io_import()) || objs.len()
            >= 2;
        let ws = split_words(&chars, false);
        let mut name_ok = true;
        if ws.len() > 0 {
            assert(ws@[0]@ == words(code@, false)[0]);
            if chars_eq_str(ws[0].as_slice(), "var") {
                match find_char(&chars, '=') {
                    Some(p) => {
                        proof {
                            crate::text::lemma_first_index(chars@, '=');
                        }
                        let n = chars.len();
                        let after = sub_chars(&chars, p + 1, n);
                        assert(after@ =~= chars@.skip(p + 1int));
                        let value = trim_chars(&after);
                        let unterminated = value.len() > 0 && value[0] == '"' && !(n > 0 && chars[n
                            - 1] == '"');
                        if !unterminated {
                            let before = sub_chars(&chars, 0, p);
                            assert(before@ =~= chars@.take(p as int));
                            let trimmed = trim_chars(&before);
                            let nw = split_words(&trimmed, false);
                            name_ok = nw.len() >= 2;
                        }
                    },
                    None => {},
                }
            }
        }
        io_ok && name_ok && self.current_line < u64::MAX
    }
}


/// Substituting the variables is substituting each of them once, one after
/// another in the order they were made: no variables leave the text as it
/// is, and one more variable at the end is substituted into the result for
/// all the others.
pub proof fn law_subst_every_variable(
    s: Seq<char>,
    vars: Seq<(Seq<char>, VarView)>,
    v: (Seq<char>, VarView),
)
    ensures
        subst_all(s, Seq::<(Seq<char>, VarView)>::empty()) == s,
        subst_all(s, vars.push(v)) == subst_var(subst_all(s, vars), v.0, var_display(v.1)),
    decreases vars.len(),
{
    if vars.len() > 0 {
        let s1 = subst_var(s, vars[0].0, var_display(vars[0].1));
        law_subst_every_variable(s1, vars.drop_first(), v);
        assert(vars.push(v).drop_first() =~= vars.drop_first().push(v));
        assert(vars.push(v)[0] == vars[0]);
        assert(subst_all(s, vars.push(v)) == subst_all(s1, vars.push(v).drop_first()));
        assert(subst_all(s, vars) == subst_all(s1, vars.drop_first()));
    } else {
        let e = Seq::<(Seq<char>, VarView)>::empty();
        assert(vars.push(v).drop_first() =~= e);
        assert(vars.push(v)[0] == v);
        assert(vars =~= e);
        let s1 = subst_var(s, v.0, var_display(v.1));
        assert(subst_all(s, vars.push(v)) == subst_all(s1, vars.push(v).drop_first()));
        assert(subst_all(s1, e) == s1);
    }
}

/// A `var` line whose first '=' is at `p` and that is not an unterminated
/// string hands exactly the text after that '=', trimmed, to be read as a
/// number — quotes included, so a quoted value is never read as one unless
/// its quoted text parses.
pub proof fn law_var_line_classifies_its_value(st: ZoioState, code: Seq<char>, p: int)
    requires
        words(code, false).len() > 0,
        words(code, false)[0] == "var"@,
        0 <= p < code.len(),
        code[p] == '=',
        forall|k: int| 0 <= k < p ==> code[k] != '=',
        !(trim(code.skip(p + 1)).len() > 0 && trim(code.skip(p + 1))[0] == '"' && !(code.len() > 0
            && code.last() == '"')),
    ensures
        rest_step(st, code) == (st, StepView::Classify(trim(code.skip(p + 1)))),
        split_on(code, '.')[0] != "io"@ ==> run_step(st, code) == (st, StepView::Classify(
            trim(code.skip(p + 1)),
        )),
{
    reveal_strlit("var");
    reveal_strlit("import");
    assert("var"@ != "import"@) by {
        assert("var"@[0] != "import"@[0]);
    }
    crate::text::lemma_first_index(code, '=');
    match first_index(code, '=') {
        Some(i) => {
            if (i as int) < p {
                assert(code[i as int] == '=');
            }
            if p < i {
                assert(code[p] != '=');
            }
            assert(i == p);
        },
        None => {
            assert(code[p] != '=');
        },
    }
    assert(var_value(code) == trim(code.skip(p + 1)));
}

/// Reading a variable's name as a line gives its value as printed, and
/// "Nothing" for a name with no variable; either way the line counter moves
/// on by one and nothing else changes.
pub proof fn law_reading_a_variable(st: ZoioState, code: Seq<char>)
    requires
        words(code, false).len() > 0,
        words(code, false)[0] != "var"@,
        words(code, false)[0] != "import"@,
    ensures
        ({
            let name = words(code, false)[0];
            let r = match lookup_var(st.vars, name) {
                Some(v) => var_display(v),
                None => "Nothing"@,
            };
            rest_step(st, code) == (ZoioState { line: (st.line + 1) as u64, ..st }, StepView::Finished(Ok(r)))
        }),
{
}

/// `import io` adds "io" to the imports; importing anything else adds
/// nothing; both answer "Nothing" and move the line counter on.
pub proof fn law_import(st: ZoioState, code: Seq<char>)
    requires
        words(code, false).len() >= 2,
        words(code, false)[0] == "import"@,
    ensures
        rest_step(st, code).1 == StepView::Finished(Ok("Nothing"@)),
        rest_step(st, code).0.line == st.line + 1 || st.line == u64::MAX,
        rest_step(st, code).0.vars == st.vars,
        rest_step(st, code).0.imports == (if words(code, false)[1] == "io"@ {
            st.imports.push("io"@)
        } else {
            st.imports
        }),
{
}

} // verus!
