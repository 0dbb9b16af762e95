//! Callbacks that extensions register: lifecycle hooks, tools, commands,
//! message renderers and editor hints.
//!
//! Each kind of callback is a small trait, implemented for every closure of
//! the matching shape, so that extensions register plain closures.

use vstd::prelude::*;

verus! {

/// A hook that receives one text (a prompt, an output, a role, an id, ...).
pub trait TextHook {
    fn call(&self, a: &str);
}

/// A hook that receives two texts.
pub trait PairHook {
    fn call(&self, a: &str, b: &str);
}

/// A hook that receives two texts and an error flag.
pub trait OutcomeHook {
    fn call(&self, a: &str, b: &str, is_error: bool);
}

/// A hook that receives a count.
pub trait CountHook {
    fn call(&self, n: usize);
}

/// A hook that receives nothing.
pub trait SignalHook {
    fn call(&self);
}

/// A hook that receives a model name and two token counts.
pub trait UsageHook {
    fn call(&self, model: &str, input_tokens: u64, output_tokens: u64);
}

/// The handler of a tool: JSON input in, output or error message out.
pub trait ToolHandler {
    fn call(&self, input: &str) -> Result<String, String>;
}

/// The handler of a slash command: the argument string in.
pub trait CommandHandler {
    fn call(&self, args: &str) -> Result<(), String>;
}

/// A message renderer: `(role, content)` in, a rendering or `None` for the
/// default one out.
pub trait MessageRenderer {
    fn call(&self, role: &str, content: &str) -> Option<String>;
}

/// An editor hint: the text to show.
pub trait EditorHint {
    fn call(&self) -> String;
}

/// Runs a closure on one text.
#[verifier::external_body]
fn run_text<F: Fn(&str)>(f: &F, a: &str) {
    f(a)
}

/// Runs a closure on two texts.
#[verifier::external_body]
fn run_pair<F: Fn(&str, &str)>(f: &F, a: &str, b: &str) {
    f(a, b)
}

/// Runs a closure on two texts and a flag.
#[verifier::external_body]
fn run_outcome<F: Fn(&str, &str, bool)>(f: &F, a: &str, b: &str, is_error: bool) {
    f(a, b, is_error)
}

/// Runs a closure on a count.
#[verifier::external_body]
fn run_count<F: Fn(usize)>(f: &F, n: usize) {
    f(n)
}

/// Runs a closure without arguments.
#[verifier::external_body]
fn run_signal<F: Fn()>(f: &F) {
    f()
}

/// Runs a closure on a model name and two counts.
#[verifier::external_body]
fn run_usage<F: Fn(&str, u64, u64)>(f: &F, model: &str, input_tokens: u64, output_tokens: u64) {
    f(model, input_tokens, output_tokens)
}

/// Runs a tool closure; nothing is known of what it returns.
#[verifier::external_body]
fn run_tool<F: Fn(&str) -> Result<String, String>>(f: &F, input: &str) -> Result<String, String> {
    f(input)
}

/// Runs a command closure; nothing is known of what it returns.
#[verifier::external_body]
fn run_command<F: Fn(&str) -> Result<(), String>>(f: &F, args: &str) -> Result<(), String> {
    f(args)
}

/// Runs a renderer closure; nothing is known of what it returns.
#[verifier::external_body]
fn run_renderer<F: Fn(&str, &str) -> Option<String>>(f: &F, role: &str, content: &str) -> Option<String> {
    f(role, content)
}

/// Runs a hint closure; nothing is known of what it returns.
#[verifier::external_body]
fn run_hint<F: Fn() -> String>(f: &F) -> String {
    f()
}

impl<F: Fn(&str)> TextHook for F {
    fn call(&self, a: &str) {
        run_text(self, a)
    }
}

impl<F: Fn(&str, &str)> PairHook for F {
    fn call(&self, a: &str, b: &str) {
        run_pair(self, a, b)
    }
}

impl<F: Fn(&str, &str, bool)> OutcomeHook for F {
    fn call(&self, a: &str, b: &str, is_error: bool) {
        run_outcome(self, a, b, is_error)
    }
}

impl<F: Fn(usize)> CountHook for F {
    fn call(&self, n: usize) {
        run_count(self, n)
    }
}

impl<F: Fn()> SignalHook for F {
    fn call(&self) {
        run_signal(self)
    }
}

impl<F: Fn(&str, u64, u64)> UsageHook for F {
    fn call(&self, model: &str, input_tokens: u64, output_tokens: u64) {
        run_usage(self, model, input_tokens, output_tokens)
    }
}

impl<F: Fn(&str) -> Result<String, String>> ToolHandler for F {
    fn call(&self, input: &str) -> Result<String, String> {
        run_tool(self, input)
    }
}

impl<F: Fn(&str) -> Result<(), String>> CommandHandler for F {
    fn call(&self, args: &str) -> Result<(), String> {
        run_command(self, args)
    }
}

impl<F: Fn(&str, &str) -> Option<String>> MessageRenderer for F {
    fn call(&self, role: &str, content: &str) -> Option<String> {
        run_renderer(self, role, content)
    }
}

impl<F: Fn() -> String> EditorHint for F {
    fn call(&self) -> String {
        run_hint(self)
    }
}

} // verus!
