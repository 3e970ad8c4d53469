//! Punctuation around containers, in its two renderings.
//!
//! A [`Formatter`] decides how a container opens and closes and how its
//! items and keys are set apart. It knows nothing of scalars.

use vstd::prelude::*;

verus! {

/// The line feed.
pub const NEWLINE: u8 = 0x0A;

/// The space.
pub const SPACE: u8 = 0x20;

/// `,`, which sets items apart on one line.
pub const COMMA: u8 = 0x2C;

/// `:`, which follows a key.
pub const COLON: u8 = 0x3A;

/// The blank start of a line inside `depth` containers: two spaces for each.
pub open spec fn indentation(depth: nat) -> Seq<u8> {
    Seq::new(2 * depth, |i: int| SPACE)
}

/// Appends the indentation for `indent` levels.
pub fn indent(writer: &mut Vec<u8>, indent: usize)
    ensures
        final(writer)@ == old(writer)@ + indentation(indent as nat),
{
    let mut done: usize = 0;
    while done < indent
        invariant
            done <= indent,
            writer@ == old(writer)@ + indentation(done as nat),
        decreases indent - done,
    {
        writer.push(SPACE);
        writer.push(SPACE);
        done += 1;
    }
}

/// The structural punctuation of one rendering.
///
/// The spec functions say which bytes each hook writes, as a function of the
/// depth at which the formatter stands; the hooks write exactly those.
pub trait Formatter {
    /// How many indenting containers are open.
    spec fn depth(&self) -> nat;

    /// By how much opening a container raises the depth: 0 or 1.
    spec fn step() -> nat;

    /// What opening a container with the delimiter `ch` writes at `depth`.
    spec fn opening(depth: nat, ch: u8) -> Seq<u8>;

    /// What closing a container with the delimiter `ch` writes; `depth` is
    /// the depth inside the container.
    spec fn closing(depth: nat, ch: u8) -> Seq<u8>;

    /// What stands between a key and its value.
    spec fn key_mark() -> Seq<u8>;

    /// What stands between two items at `depth`.
    spec fn item_mark(depth: nat) -> Seq<u8>;

    /// A rendering that indents writes at least two bytes whenever it opens
    /// a container, so the depth never outgrows the text.
    proof fn lemma_opening_len(depth: nat, ch: u8)
        ensures
            Self::step() <= 1,
            Self::opening(depth, ch).len() >= 2 * Self::step(),
    ;

    /// Writes the opening delimiter `ch` and enters the container.
    fn start_compound(&mut self, writer: &mut Vec<u8>, ch: u8)
        requires
            Self::step() == 0 || old(self).depth() < usize::MAX,
        ensures
            final(self).depth() == old(self).depth() + Self::step(),
            final(writer)@ == old(writer)@ + Self::opening(old(self).depth(), ch),
    ;

    /// Leaves the container and writes the closing delimiter `ch`.
    fn end_compound(&mut self, writer: &mut Vec<u8>, ch: u8)
        requires
            old(self).depth() >= Self::step(),
        ensures
            final(self).depth() == old(self).depth() - Self::step(),
            final(writer)@ == old(writer)@ + Self::closing(old(self).depth(), ch),
    ;

    /// Writes what stands between a key and its value.
    fn key_separator(&mut self, writer: &mut Vec<u8>)
        ensures
            final(self).depth() == old(self).depth(),
            final(writer)@ == old(writer)@ + Self::key_mark(),
    ;

    /// Writes what sets an item apart from the one before it; nothing in
    /// front of the first item of a container.
    fn item_separator(&mut self, writer: &mut Vec<u8>, first: bool)
        ensures
            final(self).depth() == old(self).depth(),
            final(writer)@ == old(writer)@ + if first {
                Seq::empty()
            } else {
                Self::item_mark(old(self).depth())
            },
    ;
}

/// Everything on one line, with no whitespace.
pub struct CompactFormatter;

impl Formatter for CompactFormatter {
    open spec fn depth(&self) -> nat {
        0
    }

    open spec fn step() -> nat {
        0
    }

    open spec fn opening(depth: nat, ch: u8) -> Seq<u8> {
        seq![ch]
    }

    open spec fn closing(depth: nat, ch: u8) -> Seq<u8> {
        seq![ch]
    }

    open spec fn key_mark() -> Seq<u8> {
        seq![COLON]
    }

    open spec fn item_mark(depth: nat) -> Seq<u8> {
        seq![COMMA]
    }

    proof fn lemma_opening_len(depth: nat, ch: u8) {
    }

    fn start_compound(&mut self, writer: &mut Vec<u8>, ch: u8) {
        writer.push(ch);
    }

    fn end_compound(&mut self, writer: &mut Vec<u8>, ch: u8) {
        writer.push(ch);
    }

    fn key_separator(&mut self, writer: &mut Vec<u8>) {
        writer.push(COLON);
    }

    fn item_separator(&mut self, writer: &mut Vec<u8>, first: bool) {
        if !first {
            writer.push(COMMA);
        }
    }
}

/// One item to a line, indented by two spaces for each open container.
/// The line break sets items apart: there is no comma.
pub struct PrettyFormatter {
    indent: usize,
}

impl PrettyFormatter {
    /// A formatter that stands outside every container.
    pub fn new() -> (formatter: Self)
        ensures
            formatter.depth() == 0,
    {
        PrettyFormatter { indent: 0 }
    }
}

impl Formatter for PrettyFormatter {
    closed spec fn depth(&self) -> nat {
        self.indent as nat
    }

    open spec fn step() -> nat {
        1
    }

    open spec fn opening(depth: nat, ch: u8) -> Seq<u8> {
        seq![ch, NEWLINE] + indentation(depth + 1)
    }

    open spec fn closing(depth: nat, ch: u8) -> Seq<u8> {
        seq![NEWLINE] + indentation((depth - 1) as nat) + seq![ch]
    }

    open spec fn key_mark() -> Seq<u8> {
        seq![COLON, SPACE]
    }

    open spec fn item_mark(depth: nat) -> Seq<u8> {
        seq![NEWLINE] + indentation(depth)
    }

    proof fn lemma_opening_len(depth: nat, ch: u8) {
    }

    fn start_compound(&mut self, writer: &mut Vec<u8>, ch: u8) {
        self.indent += 1;
        writer.push(ch);
        writer.push(NEWLINE);
        indent(writer, self.indent);
    }

    fn end_compound(&mut self, writer: &mut Vec<u8>, ch: u8) {
        self.indent -= 1;
        writer.push(NEWLINE);
        indent(writer, self.indent);
        writer.push(ch);
    }

    fn key_separator(&mut self, writer: &mut Vec<u8>) {
        writer.push(COLON);
        writer.push(SPACE);
    }

    fn item_separator(&mut self, writer: &mut Vec<u8>, first: bool) {
        if !first {
            writer.push(NEWLINE);
            indent(writer, self.indent);
        }
    }
}

} // verus!
