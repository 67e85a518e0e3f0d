//! The code generator's front door: the targets it knows, and what it
//! gives for each.

use vstd::prelude::*;
use crate::parser::Instruction;
use crate::text::text_is;

verus! {

/// Whether `name` names a target that the generator knows: an
/// architecture, an operating system and a C runtime.
pub open spec fn is_target(name: Seq<char>) -> bool {
    ||| name == "x86_64-linux-c99"@
    ||| name == "x86_64-win32-c99"@
    ||| name == "i686-linux-c99"@
    ||| name == "i686-win32-c99"@
}

/// Whether the generator knows the target `name`.
pub fn knows_target(name: &str) -> (b: bool)
    ensures
        b == is_target(name@),
{
    text_is(name, "x86_64-linux-c99") || text_is(name, "x86_64-win32-c99") || text_is(
        name,
        "i686-linux-c99",
    ) || text_is(name, "i686-win32-c99")
}

fn x86_64_linux_c99_compile(instructions: &Vec<Instruction>) -> (out: String)
    ensures
        out@ == Seq::<char>::empty(),
{
    String::new()
}

fn x86_64_win32_c99_compile(instructions: &Vec<Instruction>) -> (out: String)
    ensures
        out@ == Seq::<char>::empty(),
{
    String::new()
}

fn i686_linux_c99_compile(instructions: &Vec<Instruction>) -> (out: String)
    ensures
        out@ == Seq::<char>::empty(),
{
    String::new()
}

fn i686_win32_c99_compile(instructions: &Vec<Instruction>) -> (out: String)
    ensures
        out@ == Seq::<char>::empty(),
{
    String::new()
}

/// The output for a target by name, `None` where the name is not that
/// of a known target. No target has an output yet but the empty one.
pub fn compile_for(instructions: &Vec<Instruction>, target: &str) -> (out: Option<String>)
    ensures
        out is Some <==> is_target(target@),
        out is Some ==> out->0@ == Seq::<char>::empty(),
{
    if text_is(target, "x86_64-linux-c99") {
        Some(x86_64_linux_c99_compile(instructions))
    } else if text_is(target, "x86_64-win32-c99") {
        Some(x86_64_win32_c99_compile(instructions))
    } else if text_is(target, "i686-linux-c99") {
        Some(i686_linux_c99_compile(instructions))
    } else if text_is(target, "i686-win32-c99") {
        Some(i686_win32_c99_compile(instructions))
    } else {
        None
    }
}

/// The output for a known target: empty, for each of them.
pub fn compile(instructions: &Vec<Instruction>, target: String) -> (out: String)
    requires
        is_target(target@),
    ensures
        out@ == Seq::<char>::empty(),
{
    match compile_for(instructions, target.as_str()) {
        Some(out) => out,
        None => vstd::pervasive::unreached(),
    }
}

} // verus!
