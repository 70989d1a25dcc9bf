//! The script compiler.
//!
//! A script opens with a version directive, `!: BOLT <major>.<minor>`, alone
//! on its first line. Text that does not open so is not a script. The
//! compiler reads that line and nothing behind it.

use crate::error::StubError;
use crate::handshake::ProtocolVersion;
use crate::stub_engine::{declared_version, Node, NodeContainer, StubEngine};
use vstd::prelude::*;
use vstd::string::StrSliceExecFns;

verus! {

/// The line on which the version directive stands.
pub const DIRECTIVE_LINE: i32 = 1;

/// The largest number a version component can hold.
pub const COMPONENT_MAX: u32 = 255;

/// The text that opens a version directive.
pub open spec fn marker() -> Seq<char> {
    "!: BOLT "@
}

/// Whether `c` is a decimal digit.
pub open spec fn is_digit(c: char) -> bool {
    '0' <= c <= '9'
}

/// The number that the decimal digit `c` stands for.
pub open spec fn digit_value(c: char) -> nat {
    (c as int - '0' as int) as nat
}

/// The position of the first character at or after `from` that is no digit,
/// or the length of `text` if only digits follow.
pub open spec fn digits_end(text: Seq<char>, from: int) -> int
    decreases text.len() - from,
{
    if 0 <= from < text.len() && is_digit(text[from]) {
        digits_end(text, from + 1)
    } else {
        from
    }
}

/// The number that a run of decimal digits spells; leading zeros count for
/// nothing.
pub open spec fn decimal(digits: Seq<char>) -> nat
    decreases digits.len(),
{
    if digits.len() == 0 {
        0
    } else {
        decimal(digits.drop_last()) * 10 + digit_value(digits.last())
    }
}

/// A version directive found at the start of a text.
pub struct Directive {
    pub major: u8,
    pub minor: u8,
    /// The position just behind the directive.
    pub end: int,
}

/// The version directive at the start of `text`, if there is one: the
/// marker, one or more digits, one dot, one or more digits. Each run of
/// digits is taken as far as it goes and must spell a number that fits a
/// byte.
pub open spec fn directive(text: Seq<char>) -> Option<Directive> {
    let start = marker().len() as int;
    let dot = digits_end(text, start);
    let end = digits_end(text, dot + 1);
    if text.len() >= start && text.subrange(0, start) == marker() && start < dot < text.len()
        && text[dot] == '.' && dot + 1 < end && decimal(text.subrange(start, dot)) <= COMPONENT_MAX
        && decimal(text.subrange(dot + 1, end)) <= COMPONENT_MAX {
        Some(
            Directive {
                major: decimal(text.subrange(start, dot)) as u8,
                minor: decimal(text.subrange(dot + 1, end)) as u8,
                end,
            },
        )
    } else {
        None
    }
}

/// Whether a line of `text` ends at position `at`: the text ends there, or a
/// line feed stands there, or a carriage return with a line feed behind it.
pub open spec fn line_ends(text: Seq<char>, at: int) -> bool {
    at == text.len() || text[at] == '\n' || (text[at] == '\r' && at + 1 < text.len() && text[at
        + 1] == '\n')
}

/// What compiling `text` yields: the version of its directive, provided the
/// directive is all that stands on the first line.
pub open spec fn compiled(text: Seq<char>) -> Option<(u8, u8)> {
    match directive(text) {
        Some(found) => if line_ends(text, found.end) {
            Some((found.major, found.minor))
        } else {
            None
        },
        None => None,
    }
}

/// The nodes of the script that declares version `major`.`minor`.
pub open spec fn script_of(major: u8, minor: u8) -> Seq<NodeContainer> {
    seq![NodeContainer { node: Node::Bolt { major, minor }, script_line: DIRECTIVE_LINE }]
}

/// The error that refuses a text whose first line is no version directive.
pub open spec fn no_directive() -> StubError {
    StubError::CompileError { line: DIRECTIVE_LINE }
}

/// The digits of a run lie before its end, and what stands at the end is no
/// digit.
proof fn lemma_digits_end(text: Seq<char>, from: int)
    requires
        0 <= from <= text.len(),
    ensures
        from <= digits_end(text, from) <= text.len(),
        forall|i: int| from <= i < digits_end(text, from) ==> is_digit(#[trigger] text[i]),
        digits_end(text, from) < text.len() ==> !is_digit(text[digits_end(text, from)]),
    decreases text.len() - from,
{
    if from < text.len() && is_digit(text[from]) {
        lemma_digits_end(text, from + 1);
    }
}

/// A directive ends inside the text, behind its marker.
pub proof fn lemma_directive_bounds(text: Seq<char>)
    ensures
        directive(text) matches Some(found) ==> marker().len() < found.end <= text.len(),
{
    let start = marker().len() as int;
    if text.len() >= start {
        lemma_digits_end(text, start);
        let dot = digits_end(text, start);
        if dot < text.len() {
            lemma_digits_end(text, dot + 1);
        }
    }
}

/// Whether `script` opens with the directive's marker.
fn has_marker(script: &str, len: usize) -> (found: bool)
    requires
        len == script@.len(),
    ensures
        found == (script@.len() >= marker().len() && script@.subrange(0, marker().len() as int)
            == marker()),
{
    let opening: &str = "!: BOLT ";
    let count: usize = opening.unicode_len();
    if len < count {
        return false;
    }
    let mut i: usize = 0;
    while i < count
        invariant
            i <= count,
            count == opening@.len(),
            opening@ == marker(),
            count <= len,
            len == script@.len(),
            forall|j: int| 0 <= j < i ==> script@[j] == opening@[j],
        decreases count - i,
    {
        if script.get_char(i) != opening.get_char(i) {
            assert(script@.subrange(0, count as int)[i as int] != marker()[i as int]);
            return false;
        }
        i += 1;
    }
    assert(script@.subrange(0, count as int) =~= marker());
    true
}

/// Reads the run of digits that starts at `from`. Returns where the run ends
/// and the number it spells, or no number if that does not fit a byte.
fn read_component(script: &str, from: usize, len: usize) -> (run: (usize, Option<u8>))
    requires
        len == script@.len(),
        from <= len,
    ensures
        run.0 == digits_end(script@, from as int),
        from <= run.0 <= len,
        run.1 == if decimal(script@.subrange(from as int, run.0 as int)) <= COMPONENT_MAX {
            Some(decimal(script@.subrange(from as int, run.0 as int)) as u8)
        } else {
            None::<u8>
        },
{
    let mut i: usize = from;
    let mut number: u32 = 0;
    let mut fits: bool = true;
    assert(script@.subrange(from as int, from as int) =~= Seq::<char>::empty());
    loop
        invariant
            len == script@.len(),
            from <= i <= len,
            digits_end(script@, from as int) == digits_end(script@, i as int),
            fits ==> number == decimal(script@.subrange(from as int, i as int)) && number
                <= COMPONENT_MAX,
            !fits ==> decimal(script@.subrange(from as int, i as int)) > COMPONENT_MAX,
        ensures
            from <= i <= len,
            i == digits_end(script@, from as int),
            fits ==> number == decimal(script@.subrange(from as int, i as int)) && number
                <= COMPONENT_MAX,
            !fits ==> decimal(script@.subrange(from as int, i as int)) > COMPONENT_MAX,
        decreases len - i,
    {
        if i >= len {
            break;
        }
        let c: char = script.get_char(i);
        let code: u32 = c as u32;
        if code < 48 || code > 57 {
            break;
        }
        proof {
            let longer = script@.subrange(from as int, i as int + 1);
            assert(longer.drop_last() =~= script@.subrange(from as int, i as int));
            assert(longer.last() == c);
            assert(digit_value(c) == code - 48);
        }
        if fits {
            let next: u32 = number * 10 + (code - 48);
            if next > COMPONENT_MAX {
                fits = false;
            } else {
                number = next;
            }
        }
        i += 1;
    }
    if fits {
        (i, Some(number as u8))
    } else {
        (i, None)
    }
}

/// Reads the version directive at the start of `script` and returns the text
/// behind it together with the version, major first.
pub fn bolt_version(script: &str) -> (outcome: Result<(&str, (u8, u8)), StubError>)
    ensures
        match outcome {
            Ok((rest, (major, minor))) => directive(script@) matches Some(found) && found.major
                == major && found.minor == minor && rest@ == script@.subrange(
                found.end,
                script@.len() as int,
            ),
            Err(error) => directive(script@) is None && error == no_directive(),
        },
{
    let len: usize = script.unicode_len();
    if !has_marker(script, len) {
        return Err(StubError::CompileError { line: DIRECTIVE_LINE });
    }
    proof {
        reveal_strlit("!: BOLT ");
    }
    let start: usize = 8;
    let (dot, major) = read_component(script, start, len);
    if dot == start || dot >= len {
        return Err(StubError::CompileError { line: DIRECTIVE_LINE });
    }
    if script.get_char(dot) != '.' {
        return Err(StubError::CompileError { line: DIRECTIVE_LINE });
    }
    let (end, minor) = read_component(script, dot + 1, len);
    if end == dot + 1 {
        return Err(StubError::CompileError { line: DIRECTIVE_LINE });
    }
    match (major, minor) {
        (Some(major), Some(minor)) => Ok((script.substring_char(end, len), (major, minor))),
        _ => Err(StubError::CompileError { line: DIRECTIVE_LINE }),
    }
}

/// Whether `rest`, the text behind a directive, opens with the end of the
/// directive's line.
fn at_line_end(rest: &str) -> (ended: bool)
    ensures
        ended == line_ends(rest@, 0),
{
    let remaining: usize = rest.unicode_len();
    if remaining == 0 {
        return true;
    }
    let c: char = rest.get_char(0);
    c == '\n' || (c == '\r' && remaining > 1 && rest.get_char(1) == '\n')
}

/// Compiles a script.
///
/// The result holds the version node of the directive, on line one; the
/// lines behind the first are not read. A text whose first line is not
/// exactly a version directive is refused with a compile error that names
/// line one.
pub fn build_engine(script: &str) -> (outcome: Result<StubEngine, StubError>)
    ensures
        match outcome {
            Ok(engine) => compiled(script@) matches Some((major, minor)) && engine.nodes@
                == script_of(major, minor),
            Err(error) => compiled(script@) is None && error == no_directive(),
        },
{
    match bolt_version(script) {
        Ok((rest, (major, minor))) => {
            proof {
                lemma_directive_bounds(script@);
            }
            if !at_line_end(rest) {
                return Err(StubError::CompileError { line: DIRECTIVE_LINE });
            }
            let mut nodes: Vec<NodeContainer> = Vec::with_capacity(128);
            nodes.push(NodeContainer { node: Node::Bolt { major, minor }, script_line: DIRECTIVE_LINE });
            assert(nodes@ =~= script_of(major, minor));
            Ok(StubEngine { nodes })
        },
        Err(error) => Err(error),
    }
}

/// A script that compiles declares the version that its directive spells.
pub proof fn lemma_compiled_version(text: Seq<char>)
    requires
        compiled(text) is Some,
    ensures
        declared_version(script_of(compiled(text)->Some_0.0, compiled(text)->Some_0.1)) == Some(
            ProtocolVersion {
                major: directive(text)->Some_0.major,
                minor: directive(text)->Some_0.minor,
            },
        ),
{
}

/// A text that does not open with the directive's marker never compiles.
pub proof fn lemma_directive_required(text: Seq<char>)
    requires
        text.len() < marker().len() || text.subrange(0, marker().len() as int) != marker(),
    ensures
        directive(text) is None,
        compiled(text) is None,
{
}

/// Compiling is a function of the text: equal texts compile to equal
/// results.
pub proof fn lemma_compile_deterministic(first: Seq<char>, second: Seq<char>)
    requires
        first == second,
    ensures
        compiled(first) == compiled(second),
        compiled(first) matches Some((major, minor)) ==> script_of(major, minor) == script_of(
            compiled(second)->Some_0.0,
            compiled(second)->Some_0.1,
        ),
{
}

} // verus!
