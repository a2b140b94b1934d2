//! The driver of a script: what it decides between the steps that the parser, the
//! compiler and the virtual machine of the host carry out.
//!
//! The host runs each step and tells the driver how it ended. The driver keeps the
//! script and the global namespace, says what is to be done next, and turns every
//! fault into the text that the user is shown.

use vstd::prelude::*;
use std::rc::Rc;
use crate::diagnostics::{format_error, render_error, Span};
use crate::fault::ValueError;
use crate::text::{decimal, push_decimal, push_text, same_text, string_of};
use crate::value::{keyed, Value};

verus! {

/// How a driver is to behave.
#[derive(Copy, Clone, Debug, Default, PartialEq, Eq, Structural)]
pub struct Options {
    /// List the compiled script with the source lines it came from.
    pub show_annotated: bool,
    /// List the compiled script.
    pub show_bytecode: bool,
    /// Scripts come line by line from a prompt: every top-level name is exported,
    /// and the constants must stay open for the next line.
    pub repl_mode: bool,
}

/// A fault of the virtual machine or of a function of the host.
#[derive(Clone, Debug)]
pub enum Error {
    /// Raised by the virtual machine at an instruction.
    VmError { message: String, instruction: usize },
    /// Raised by a function of the host.
    ExternalError { message: String },
}

/// How the parser and the compiler ended.
#[derive(Clone, Debug)]
pub enum CompileOutcome {
    /// The parser refused the script at a span.
    ParseError { message: String, span: Span },
    /// The compiler refused what the parser made of the script.
    CompileError { message: String },
    /// The script was compiled.
    Compiled,
}

/// What to print of a script that was compiled.
#[derive(Copy, Clone, Debug, PartialEq, Eq, Structural)]
pub enum Listing {
    /// The compiled script with the source lines it came from.
    Annotated,
    /// The compiled script.
    Bytecode,
    /// Nothing.
    Silent,
}

/// What the host is to do next while a script runs.
#[derive(Debug)]
pub enum RunAction<F> {
    /// Run the compiled script and report with [`Koto::chunk_finished`].
    RunChunk,
    /// Call the function without arguments and report with [`Koto::call_function`].
    CallFunction(usize),
    /// Nothing more: this is the result of the run.
    Finish(Result<Value<F>, String>),
}

/// The text of a fault of a function of the host.
pub open spec fn external_error_text(message: Seq<char>) -> Seq<char> {
    "Error: "@ + message + "\n"@
}

/// The text of a fault of the virtual machine for which no place in the script is known.
pub open spec fn instruction_error_text(instruction: nat, message: Seq<char>) -> Seq<char> {
    "Runtime error at instruction "@ + decimal(instruction) + ": "@ + message + "\n"@
}

/// The text of a fault of the compiler.
pub open spec fn compile_error_text(message: Seq<char>) -> Seq<char> {
    "Error while compiling script: "@ + message
}

/// The text of a call of a function that the global namespace does not have.
pub open spec fn missing_function_text(name: Seq<char>) -> Seq<char> {
    "Runtime error: function '"@ + name + "' not found"@
}

/// The text of a fault of the virtual machine: a diagnostic where the place of the
/// instruction in the script is known, and else the number of the instruction.
pub open spec fn vm_error_text(
    script: Seq<char>,
    message: Seq<char>,
    instruction: nat,
    span: Option<Span>,
) -> Seq<char> {
    match span {
        Some(span) => render_error(message, script, span),
        None => instruction_error_text(instruction, message),
    }
}

/// The text of a fault that ended a run or a call.
pub open spec fn fault_text(script: Seq<char>, error: Error, span: Option<Span>) -> Seq<char> {
    match error {
        Error::VmError { message, instruction } => vm_error_text(
            script,
            message@,
            instruction as nat,
            span,
        ),
        Error::ExternalError { message } => external_error_text(message@),
    }
}

/// The value that a global name stands for in a list of names and values: that of
/// the first entry with the name.
pub open spec fn global_in<F>(globals: Seq<(String, Value<F>)>, name: Seq<char>) -> Option<Value<F>>
    decreases globals.len(),
{
    if globals.len() == 0 {
        None
    } else if globals[0].0@ == name {
        Some(globals[0].1)
    } else {
        global_in(globals.drop_first(), name)
    }
}

/// The function that a global name stands for, if it stands for one.
pub open spec fn function_in<F>(globals: Seq<(String, Value<F>)>, name: Seq<char>) -> Option<usize> {
    match global_in(globals, name) {
        Some(Value::Function(f)) => Some(f),
        _ => None,
    }
}

/// The fault of the virtual machine that a fault of the value model becomes when it
/// is raised at an instruction.
pub fn vm_fault(error: ValueError, instruction: usize) -> (out: Error)
    ensures
        out matches Error::VmError { message, instruction: at } && message@ == error.text() && at
            == instruction,
{
    Error::VmError { message: error.message(), instruction }
}

/// Renders the text of a fault of a function of the host.
pub fn format_external_error(message: &str) -> (out: String)
    ensures
        out@ == external_error_text(message@),
{
    let mut out: Vec<char> = Vec::new();
    push_text(&mut out, "Error: ");
    push_text(&mut out, message);
    push_text(&mut out, "\n");
    string_of(&out)
}

/// Renders the text of a fault of the compiler.
pub fn format_compile_error(message: &str) -> (out: String)
    ensures
        out@ == compile_error_text(message@),
{
    let mut out: Vec<char> = Vec::new();
    push_text(&mut out, "Error while compiling script: ");
    push_text(&mut out, message);
    string_of(&out)
}

/// Renders the text of a call of a function that the global namespace does not have.
pub fn format_missing_function(name: &str) -> (out: String)
    ensures
        out@ == missing_function_text(name@),
{
    let mut out: Vec<char> = Vec::new();
    push_text(&mut out, "Runtime error: function '");
    push_text(&mut out, name);
    push_text(&mut out, "' not found");
    string_of(&out)
}

/// Renders the text of a fault of the virtual machine.
pub fn format_vm_error(script: &str, message: &str, instruction: usize, span: Option<Span>) -> (out:
    String)
    requires
        span matches Some(s) ==> s.is_valid(),
    ensures
        out@ == vm_error_text(script@, message@, instruction as nat, span),
{
    match span {
        Some(span) => format_error(message, script, span),
        None => {
            let mut out: Vec<char> = Vec::new();
            push_text(&mut out, "Runtime error at instruction ");
            push_decimal(&mut out, instruction as u64);
            push_text(&mut out, ": ");
            push_text(&mut out, message);
            push_text(&mut out, "\n");
            string_of(&out)
        },
    }
}

/// Renders the text of a fault that ended a run or a call.
pub fn format_fault(script: &str, error: &Error, span: Option<Span>) -> (out: String)
    requires
        span matches Some(s) ==> s.is_valid(),
    ensures
        out@ == fault_text(script@, *error, span),
{
    match error {
        Error::VmError { message, instruction } => format_vm_error(
            script,
            message.as_str(),
            *instruction,
            span,
        ),
        Error::ExternalError { message } => format_external_error(message.as_str()),
    }
}

/// What the parser and the compiler are to be told before a script is compiled.
#[derive(Copy, Clone, Debug, PartialEq, Eq, Structural)]
pub struct CompilePlan {
    /// Every top-level name of the script is exported.
    pub export_all_top_level: bool,
    /// The storage of the constants is cut down to what the script needs.
    pub shrink_constants: bool,
}

/// The listing that the options ask for: the annotated one before the plain one.
pub open spec fn listing_for(options: Options) -> Listing {
    if options.show_annotated {
        Listing::Annotated
    } else if options.show_bytecode {
        Listing::Bytecode
    } else {
        Listing::Silent
    }
}

/// Whether a value is the string with the given text, or `Empty` where there is none.
pub open spec fn is_text_or_empty<F>(v: Value<F>, text: Option<Seq<char>>) -> bool {
    match text {
        Some(t) => v matches Value::Str(s) && s@ == t,
        None => v is Empty,
    }
}

/// Whether a value is the list of the strings with the given texts, in their order.
pub open spec fn is_text_list<F>(v: Value<F>, texts: Seq<Seq<char>>) -> bool {
    &&& v matches Value::List(items)
    &&& items@.len() == texts.len()
    &&& forall|i: int|
        0 <= i < texts.len() ==> (#[trigger] items@[i] matches Value::Str(s) && s@ == texts[i])
}

/// Whether a value is the `env` entry of the global namespace: a map of the
/// directory of the script, the path of the script and the arguments of the run.
pub open spec fn is_env<F>(
    v: Value<F>,
    dir: Option<Seq<char>>,
    path: Option<Seq<char>>,
    args: Seq<Seq<char>>,
) -> bool {
    &&& v matches Value::Mapping(entries)
    &&& entries@.len() == 3
    &&& entries@[0].0@ == "script_dir"@
    &&& is_text_or_empty(entries@[0].1, dir)
    &&& entries@[1].0@ == "script_path"@
    &&& is_text_or_empty(entries@[1].1, path)
    &&& entries@[2].0@ == "args"@
    &&& is_text_list(entries@[2].1, args)
}

/// The views of some strings.
pub open spec fn texts_of(strings: Seq<String>) -> Seq<Seq<char>> {
    Seq::new(strings.len(), |i: int| strings[i]@)
}

/// The view of a string that may be missing.
pub open spec fn text_of(string: Option<String>) -> Option<Seq<char>> {
    match string {
        Some(s) => Some(s@),
        None => None,
    }
}

/// `std::path::Path::parent`: the path without its last component, if it has one.
/// Which part of a path is its last component depends on the platform, so nothing
/// is claimed of the result.
#[verifier::external_body]
fn parent_of(path: &str) -> (out: Option<String>) {
    match std::path::Path::new(path).parent() {
        Some(parent) => match parent.to_str() {
            Some(text) => Some(text.to_owned()),
            None => None,
        },
        None => None,
    }
}

/// The driver of a script.
pub struct Koto<F> {
    script: String,
    script_path: Option<String>,
    script_dir: Option<String>,
    args: Vec<String>,
    options: Options,
    compiled: bool,
    globals: Vec<(String, Value<F>)>,
}

impl<F> Koto<F> {
    /// The script that was compiled last.
    pub closed spec fn source(&self) -> Seq<char> {
        self.script@
    }

    /// The path of the script, if it has one.
    pub closed spec fn path(&self) -> Option<Seq<char>> {
        text_of(self.script_path)
    }

    /// The directory of the script, if its path has one.
    pub closed spec fn dir(&self) -> Option<Seq<char>> {
        text_of(self.script_dir)
    }

    /// The arguments of the run.
    pub closed spec fn arguments(&self) -> Seq<Seq<char>> {
        texts_of(self.args@)
    }

    /// How the driver is to behave.
    pub closed spec fn settings(&self) -> Options {
        self.options
    }

    /// Whether a compiled script is ready to run.
    pub closed spec fn ready(&self) -> bool {
        self.compiled
    }

    /// The names and values of the global namespace, but for the `env` entry.
    pub closed spec fn names(&self) -> Seq<(String, Value<F>)> {
        self.globals@
    }

    /// A driver with no script, an empty namespace, and an `env` entry with no
    /// path, no directory and no arguments.
    pub fn new() -> (out: Self)
        ensures
            out.source() == Seq::<char>::empty(),
            out.path() is None,
            out.dir() is None,
            out.arguments() == Seq::<Seq<char>>::empty(),
            out.settings() == (Options {
                show_annotated: false,
                show_bytecode: false,
                repl_mode: false,
            }),
            !out.ready(),
            out.names() == Seq::<(String, Value<F>)>::empty(),
    {
        let out = Koto {
            script: String::new(),
            script_path: None,
            script_dir: None,
            args: Vec::new(),
            options: Options { show_annotated: false, show_bytecode: false, repl_mode: false },
            compiled: false,
            globals: Vec::new(),
        };
        assert(out.arguments() =~= Seq::<Seq<char>>::empty());
        out
    }

    /// A driver like a new one, with the given options.
    pub fn with_options(options: Options) -> (out: Self)
        ensures
            out.source() == Seq::<char>::empty(),
            out.path() is None,
            out.dir() is None,
            out.arguments() == Seq::<Seq<char>>::empty(),
            out.settings() == options,
            !out.ready(),
            out.names() == Seq::<(String, Value<F>)>::empty(),
    {
        let mut out = Self::new();
        out.options = options;
        out
    }

    /// Whether a compiled script is ready to run.
    pub fn is_compiled(&self) -> (out: bool)
        ensures
            out == self.ready(),
    {
        self.compiled
    }

    /// The script that was compiled last.
    pub fn script(&self) -> (out: &str)
        ensures
            out@ == self.source(),
    {
        self.script.as_str()
    }

    /// What the parser and the compiler are to be told. At a prompt every top-level
    /// name is exported and the constants stay as they are; for a script neither.
    pub fn compile_plan(&self) -> (out: CompilePlan)
        ensures
            out.export_all_top_level == self.settings().repl_mode,
            out.shrink_constants == !self.settings().repl_mode,
    {
        CompilePlan {
            export_all_top_level: self.options.repl_mode,
            shrink_constants: !self.options.repl_mode,
        }
    }

    /// Takes in how the parser and the compiler ended on `script`.
    ///
    /// Whatever was compiled before is given up. A script that was compiled is kept
    /// and is ready to run, and the listing that the options ask for comes back. A
    /// script that was refused comes back as a diagnostic, and nothing is ready to run.
    pub fn compile(&mut self, script: &str, outcome: CompileOutcome) -> (out: Result<
        Listing,
        String,
    >)
        requires
            outcome matches CompileOutcome::ParseError { span, .. } ==> span.is_valid(),
        ensures
            final(self).path() == old(self).path(),
            final(self).dir() == old(self).dir(),
            final(self).arguments() == old(self).arguments(),
            final(self).settings() == old(self).settings(),
            final(self).names() == old(self).names(),
            match outcome {
                CompileOutcome::ParseError { message, span } => {
                    &&& out matches Err(text)
                    &&& text@ == render_error(message@, script@, span)
                    &&& !final(self).ready()
                    &&& final(self).source() == old(self).source()
                },
                CompileOutcome::CompileError { message } => {
                    &&& out matches Err(text)
                    &&& text@ == compile_error_text(message@)
                    &&& !final(self).ready()
                    &&& final(self).source() == old(self).source()
                },
                CompileOutcome::Compiled => {
                    &&& out == Ok::<Listing, String>(listing_for(old(self).settings()))
                    &&& final(self).ready()
                    &&& final(self).source() == script@
                },
            },
    {
        self.compiled = false;
        match outcome {
            CompileOutcome::ParseError { message, span } => Err(
                format_error(message.as_str(), script, span),
            ),
            CompileOutcome::CompileError { message } => Err(format_compile_error(message.as_str())),
            CompileOutcome::Compiled => {
                self.compiled = true;
                self.script = script.to_owned();
                if self.options.show_annotated {
                    Ok(Listing::Annotated)
                } else if self.options.show_bytecode {
                    Ok(Listing::Bytecode)
                } else {
                    Ok(Listing::Silent)
                }
            },
        }
    }

    /// Takes in how the parser and the compiler ended on `script`, and starts a run of
    /// it with the given arguments: the listing that the options ask for comes back,
    /// and what the host is to do next. A script that was refused comes back as a
    /// diagnostic, and the arguments stay as they were.
    pub fn run_script_with_args(
        &mut self,
        script: &str,
        args: &[String],
        outcome: CompileOutcome,
    ) -> (out: Result<(Listing, RunAction<F>), String>)
        requires
            outcome matches CompileOutcome::ParseError { span, .. } ==> span.is_valid(),
        ensures
            final(self).path() == old(self).path(),
            final(self).dir() == old(self).dir(),
            final(self).settings() == old(self).settings(),
            final(self).names() == old(self).names(),
            match outcome {
                CompileOutcome::ParseError { message, span } => {
                    &&& out matches Err(text)
                    &&& text@ == render_error(message@, script@, span)
                    &&& !final(self).ready()
                    &&& final(self).source() == old(self).source()
                    &&& final(self).arguments() == old(self).arguments()
                },
                CompileOutcome::CompileError { message } => {
                    &&& out matches Err(text)
                    &&& text@ == compile_error_text(message@)
                    &&& !final(self).ready()
                    &&& final(self).source() == old(self).source()
                    &&& final(self).arguments() == old(self).arguments()
                },
                CompileOutcome::Compiled => {
                    &&& out matches Ok((listing, RunAction::RunChunk))
                    &&& listing == listing_for(old(self).settings())
                    &&& final(self).ready()
                    &&& final(self).source() == script@
                    &&& final(self).arguments() == texts_of(args@)
                },
            },
    {
        match self.compile(script, outcome) {
            Err(text) => Err(text),
            Ok(listing) => {
                self.set_args(args);
                Ok((listing, self.run()))
            },
        }
    }

    /// Takes in how the parser and the compiler ended on `script`, and starts a run of
    /// it without arguments.
    pub fn run_script(&mut self, script: &str, outcome: CompileOutcome) -> (out: Result<
        (Listing, RunAction<F>),
        String,
    >)
        requires
            outcome matches CompileOutcome::ParseError { span, .. } ==> span.is_valid(),
        ensures
            final(self).path() == old(self).path(),
            final(self).dir() == old(self).dir(),
            final(self).settings() == old(self).settings(),
            final(self).names() == old(self).names(),
            match outcome {
                CompileOutcome::ParseError { message, span } => {
                    &&& out matches Err(text)
                    &&& text@ == render_error(message@, script@, span)
                    &&& !final(self).ready()
                    &&& final(self).source() == old(self).source()
                    &&& final(self).arguments() == old(self).arguments()
                },
                CompileOutcome::CompileError { message } => {
                    &&& out matches Err(text)
                    &&& text@ == compile_error_text(message@)
                    &&& !final(self).ready()
                    &&& final(self).source() == old(self).source()
                    &&& final(self).arguments() == old(self).arguments()
                },
                CompileOutcome::Compiled => {
                    &&& out matches Ok((listing, RunAction::RunChunk))
                    &&& listing == listing_for(old(self).settings())
                    &&& final(self).ready()
                    &&& final(self).source() == script@
                    &&& final(self).arguments() == Seq::<Seq<char>>::empty()
                },
            },
    {
        let none: Vec<String> = Vec::new();
        let out = self.run_script_with_args(script, none.as_slice(), outcome);
        assert(texts_of(none@) =~= Seq::<Seq<char>>::empty());
        out
    }

    /// Starts a run: the compiled script is to be run, and with none the run is over
    /// with `Empty` as its result.
    pub fn run(&self) -> (out: RunAction<F>)
        ensures
            self.ready() ==> out is RunChunk,
            !self.ready() ==> out == RunAction::Finish(Ok::<Value<F>, String>(Value::Empty)),
    {
        if self.compiled {
            RunAction::RunChunk
        } else {
            RunAction::Finish(Ok(Value::Empty))
        }
    }

    /// Takes in how the compiled script ended.
    ///
    /// A fault ends the run with its text. Otherwise the global function `main` is to
    /// be called, if there is one, and its result is the result of the run; with no
    /// such function the result of the script is.
    pub fn chunk_finished(&self, result: Result<Value<F>, Error>, span: Option<Span>) -> (out:
        RunAction<F>)
        requires
            span matches Some(s) ==> s.is_valid(),
        ensures
            match result {
                Err(error) => out matches RunAction::Finish(Err(text)) && text@ == fault_text(
                    self.source(),
                    error,
                    span,
                ),
                Ok(value) => match function_in(self.names(), "main"@) {
                    Some(f) => out == RunAction::<F>::CallFunction(f),
                    None => out == RunAction::Finish(Ok::<Value<F>, String>(value)),
                },
            },
    {
        match result {
            Err(error) => RunAction::Finish(Err(format_fault(self.script.as_str(), &error, span))),
            Ok(value) => match self.get_global_function("main") {
                Some(f) => RunAction::CallFunction(f),
                None => RunAction::Finish(Ok(value)),
            },
        }
    }

    /// The function that a global name stands for, if it stands for one.
    pub fn get_global_function(&self, id: &str) -> (out: Option<usize>)
        ensures
            out == function_in(self.names(), id@),
    {
        let mut i: usize = 0;
        assert(self.globals@.skip(0) =~= self.globals@);
        while i < self.globals.len()
            invariant
                i <= self.globals.len(),
                global_in(self.globals@, id@) == global_in(self.globals@.skip(i as int), id@),
            decreases self.globals.len() - i,
        {
            let ghost rest = self.globals@.skip(i as int);
            assert(rest[0] == self.globals@[i as int]);
            assert(rest.drop_first() =~= self.globals@.skip(i + 1));
            if same_text(self.globals[i].0.as_str(), id) {
                return match &self.globals[i].1 {
                    Value::Function(f) => Some(*f),
                    _ => None,
                };
            }
            i += 1;
        }
        None
    }

    /// Looks up the global function to be called by name. The host calls the function
    /// that comes back and reports with [`Koto::call_function`].
    pub fn call_function_by_name(&self, function_name: &str) -> (out: Result<usize, String>)
        ensures
            match function_in(self.names(), function_name@) {
                Some(f) => out == Ok::<usize, String>(f),
                None => out matches Err(text) && text@ == missing_function_text(function_name@),
            },
    {
        match self.get_global_function(function_name) {
            Some(f) => Ok(f),
            None => Err(format_missing_function(function_name)),
        }
    }

    /// Takes in how a call of a function ended: its value, or the text of its fault.
    pub fn call_function(&self, result: Result<Value<F>, Error>, span: Option<Span>) -> (out:
        Result<Value<F>, String>)
        requires
            span matches Some(s) ==> s.is_valid(),
        ensures
            match result {
                Ok(value) => out == Ok::<Value<F>, String>(value),
                Err(error) => out matches Err(text) && text@ == fault_text(
                    self.source(),
                    error,
                    span,
                ),
            },
    {
        match result {
            Ok(value) => Ok(value),
            Err(error) => Err(format_fault(self.script.as_str(), &error, span)),
        }
    }

    /// Sets the arguments of the run, as the `env` entry will show them.
    pub fn set_args(&mut self, args: &[String])
        ensures
            final(self).arguments() == texts_of(args@),
            final(self).source() == old(self).source(),
            final(self).path() == old(self).path(),
            final(self).dir() == old(self).dir(),
            final(self).settings() == old(self).settings(),
            final(self).ready() == old(self).ready(),
            final(self).names() == old(self).names(),
    {
        let mut copies: Vec<String> = Vec::new();
        let mut i: usize = 0;
        while i < args.len()
            invariant
                i <= args.len(),
                copies@.len() == i,
                forall|k: int| 0 <= k < i ==> copies@[k]@ == args@[k]@,
            decreases args.len() - i,
        {
            copies.push(args[i].clone());
            i += 1;
        }
        self.args = copies;
        assert(self.arguments() =~= texts_of(args@));
    }

    /// Sets the path of the script and the directory that `parent` names as that of
    /// the path, as the `env` entry will show them. Without a path there is no
    /// directory either.
    pub fn apply_script_path(&mut self, path: Option<String>, parent: Option<String>)
        ensures
            final(self).path() == text_of(path),
            final(self).dir() == (if path is Some {
                text_of(parent)
            } else {
                None
            }),
            final(self).source() == old(self).source(),
            final(self).arguments() == old(self).arguments(),
            final(self).settings() == old(self).settings(),
            final(self).ready() == old(self).ready(),
            final(self).names() == old(self).names(),
    {
        self.script_dir = match &path {
            Some(_) => parent,
            None => None,
        };
        self.script_path = path;
    }

    /// Sets the path of the script, and as its directory what the platform takes for
    /// the parent of that path.
    pub fn set_script_path(&mut self, path: Option<String>)
        ensures
            final(self).path() == text_of(path),
            path is None ==> final(self).dir() is None,
            final(self).source() == old(self).source(),
            final(self).arguments() == old(self).arguments(),
            final(self).settings() == old(self).settings(),
            final(self).ready() == old(self).ready(),
            final(self).names() == old(self).names(),
    {
        let parent = match &path {
            Some(path) => parent_of(path.as_str()),
            None => None,
        };
        self.apply_script_path(path, parent)
    }

    /// The `env` entry of the global namespace.
    pub fn env(&self) -> (out: Value<F>)
        ensures
            is_env(out, self.dir(), self.path(), self.arguments()),
            keyed(out),
    {
        let dir = match &self.script_dir {
            Some(text) => Value::Str(Rc::new(text.clone())),
            None => Value::Empty,
        };
        let path = match &self.script_path {
            Some(text) => Value::Str(Rc::new(text.clone())),
            None => Value::Empty,
        };
        let mut items: Vec<Value<F>> = Vec::new();
        let mut i: usize = 0;
        while i < self.args.len()
            invariant
                i <= self.args.len(),
                items@.len() == i,
                forall|k: int|
                    0 <= k < i ==> (#[trigger] items@[k] matches Value::Str(s) && s@
                        == self.args@[k]@),
            decreases self.args.len() - i,
        {
            items.push(Value::Str(Rc::new(self.args[i].clone())));
            i += 1;
        }
        let mut entries: Vec<(String, Value<F>)> = Vec::new();
        entries.push(("script_dir".to_owned(), dir));
        entries.push(("script_path".to_owned(), path));
        let list = Value::List(Rc::new(items));
        proof {
            assert forall|k: int| 0 <= k < items@.len() implies keyed(#[trigger] items@[k]) by {}
            assert(keyed(list));
        }
        entries.push(("args".to_owned(), list));
        proof {
            reveal_strlit("script_dir");
            reveal_strlit("script_path");
            reveal_strlit("args");
            assert("script_dir"@.len() != "script_path"@.len());
            assert("script_dir"@.len() != "args"@.len());
            assert("script_path"@.len() != "args"@.len());
            assert forall|i: int| 0 <= i < entries@.len() implies keyed((#[trigger] entries@[i]).1) by {}
        }
        Value::Mapping(Rc::new(entries))
    }

    /// The value that a global name stands for: the `env` entry under `env`, and else
    /// what the namespace holds under the name.
    pub fn global(&self, name: &str) -> (out: Option<Value<F>>)
        ensures
            name@ == "env"@ ==> (out matches Some(v) && keyed(v) && is_env(
                v,
                self.dir(),
                self.path(),
                self.arguments(),
            )),
            name@ != "env"@ ==> out == global_in(self.names(), name@),
    {
        if same_text(name, "env") {
            return Some(self.env());
        }
        let mut i: usize = 0;
        assert(self.globals@.skip(0) =~= self.globals@);
        while i < self.globals.len()
            invariant
                i <= self.globals.len(),
                name@ != "env"@,
                global_in(self.globals@, name@) == global_in(self.globals@.skip(i as int), name@),
            decreases self.globals.len() - i,
        {
            let ghost rest = self.globals@.skip(i as int);
            assert(rest[0] == self.globals@[i as int]);
            assert(rest.drop_first() =~= self.globals@.skip(i + 1));
            if same_text(self.globals[i].0.as_str(), name) {
                return Some(self.globals[i].1.duplicate());
            }
            i += 1;
        }
        None
    }

    /// The names and values of the global namespace, to be added to and changed. The
    /// `env` entry is not among them: it belongs to the driver.
    pub fn global_mut(&mut self) -> (out: &mut Vec<(String, Value<F>)>)
        ensures
            out@ == old(self).names(),
            final(self).names() == final(out)@,
            final(self).source() == old(self).source(),
            final(self).path() == old(self).path(),
            final(self).dir() == old(self).dir(),
            final(self).arguments() == old(self).arguments(),
            final(self).settings() == old(self).settings(),
            final(self).ready() == old(self).ready(),
    {
        &mut self.globals
    }
}

} // verus!
