//! The encoder: it walks a value, takes the punctuation of containers from
//! its formatter and the text of scalars from the scalar rules, and writes
//! into a buffer as it goes.

use crate::error::{Error, ErrorCode};
use crate::format::{CompactFormatter, Formatter, PrettyFormatter};
use crate::laws::{lemma_entries_failed, lemma_items_failed, lemma_succeeds_iff_encodable};
use crate::scalar::{
    bool_text, float_text, int_text, str_text, write_bool, write_bytes, write_float, write_i64,
    write_str, write_u64,
};
use crate::value::{
    encodable, encoded, entries_encoded, entry_encoded, item_encoded, items_encoded, key_text,
    mapping_encoded, sequence_encoded, Outcome, State, Value, MAP_CLOSE, MAP_OPEN, SEQ_CLOSE,
    SEQ_OPEN,
};
use vstd::prelude::*;
use vstd::utf8::encode_utf8;

verus! {

/// What a call returns for the end of an encoding: `Ok`, or the syntax error
/// of the code, with its position left at zero.
pub open spec fn result_of(error: Option<ErrorCode>) -> Result<(), Error> {
    match error {
        None => Ok(()),
        Some(code) => Err(Error::SyntaxError(code, 0, 0, 0)),
    }
}

/// An encoder that writes into a buffer of its own with the punctuation of
/// the formatter `F`.
pub struct Serializer<F: Formatter = PrettyFormatter> {
    writer: Vec<u8>,
    format: F,
    first: bool,
}

impl<F: Formatter> View for Serializer<F> {
    type V = State;

    closed spec fn view(&self) -> State {
        State { text: self.writer@, depth: self.format.depth(), first: self.first }
    }
}

impl Serializer<CompactFormatter> {
    /// An encoder that goes on after `writer` on one line.
    pub fn new(writer: Vec<u8>) -> (serializer: Self)
        ensures
            serializer@ == (State { text: writer@, depth: 0, first: false }),
            serializer.wf(),
    {
        Serializer::with_formatter(writer, CompactFormatter)
    }
}

impl Serializer<PrettyFormatter> {
    /// An encoder that goes on after `writer` with one item to a line.
    pub fn pretty(writer: Vec<u8>) -> (serializer: Self)
        ensures
            serializer@ == (State { text: writer@, depth: 0, first: false }),
            serializer.wf(),
    {
        Serializer::with_formatter(writer, PrettyFormatter::new())
    }
}

impl<F: Formatter> Serializer<F> {
    /// Whether the buffer has room for the depth of the formatter.
    pub open spec fn wf(&self) -> bool {
        self@.has_room::<F>()
    }

    /// An encoder that goes on after `writer` with the punctuation of `format`.
    pub fn with_formatter(writer: Vec<u8>, format: F) -> (serializer: Self)
        requires
            F::step() == 0 || 2 * format.depth() <= writer@.len(),
        ensures
            serializer@ == (State { text: writer@, depth: format.depth(), first: false }),
            serializer.wf(),
    {
        Serializer { writer: writer, format: format, first: false }
    }

    /// The buffer, with everything that was written.
    pub fn into_inner(self) -> (writer: Vec<u8>)
        ensures
            writer@ == self@.text,
    {
        self.writer
    }

    /// Writes `True` or `False`.
    pub fn visit_bool(&mut self, v: bool)
        requires
            old(self).wf(),
        ensures
            final(self)@ == old(self)@.write(bool_text(v)),
            final(self).wf(),
    {
        write_bool(&mut self.writer, v);
    }

    /// Writes a signed integer in decimal.
    pub fn visit_i64(&mut self, v: i64)
        requires
            old(self).wf(),
        ensures
            final(self)@ == old(self)@.write(int_text(v as int)),
            final(self).wf(),
    {
        write_i64(&mut self.writer, v);
    }

    /// Writes an unsigned integer in decimal.
    pub fn visit_u64(&mut self, v: u64)
        requires
            old(self).wf(),
        ensures
            final(self)@ == old(self)@.write(int_text(v as int)),
            final(self).wf(),
    {
        write_u64(&mut self.writer, v);
    }

    /// Writes a float from the shortest text that reads back as the same
    /// number; `finite` says whether the number is neither NaN nor infinite.
    pub fn visit_f64(&mut self, finite: bool, shortest: &str)
        requires
            old(self).wf(),
        ensures
            final(self)@ == old(self)@.write(float_text(finite, encode_utf8(shortest@))),
            final(self).wf(),
    {
        write_float(&mut self.writer, finite, shortest);
    }

    /// Writes a string between quotes, with its escapes.
    pub fn visit_str(&mut self, v: &str)
        requires
            old(self).wf(),
        ensures
            final(self)@ == old(self)@.write(str_text(encode_utf8(v@))),
            final(self).wf(),
    {
        write_str(&mut self.writer, v);
    }

    /// Refuses the unit value: the format has no text for it.
    pub fn visit_unit(&mut self) -> (r: Result<(), Error>)
        ensures
            final(self)@ == old(self)@,
            r == result_of(Some(ErrorCode::UnrepresentableValue)),
    {
        Err(Error::SyntaxError(ErrorCode::UnrepresentableValue, 0, 0, 0))
    }

    /// Refuses an absent value: the format has no text for it.
    pub fn visit_none(&mut self) -> (r: Result<(), Error>)
        ensures
            final(self)@ == old(self)@,
            r == result_of(Some(ErrorCode::UnrepresentableValue)),
    {
        self.visit_unit()
    }

    /// Writes a value that is present, as the value itself.
    pub fn visit_some(&mut self, value: &Value) -> (r: Result<(), Error>)
        requires
            old(self).wf(),
        ensures
            final(self)@ == encoded::<F>(*value, old(self)@).state,
            r == result_of(encoded::<F>(*value, old(self)@).error),
            r is Ok ==> final(self)@.depth == old(self)@.depth,
            final(self).wf(),
        decreases value, 1nat,
    {
        value.serialize(self)
    }

    /// Writes a sequence of `items` that reports the length `len`: `[]` if
    /// that is zero, else the items between the delimiters.
    pub fn visit_seq(&mut self, len: Option<usize>, items: &Vec<Value>) -> (r: Result<(), Error>)
        requires
            old(self).wf(),
        ensures
            final(self)@ == sequence_encoded::<F>(len, items@, old(self)@).state,
            r == result_of(sequence_encoded::<F>(len, items@, old(self)@).error),
            r is Ok ==> final(self)@.depth == old(self)@.depth,
            final(self).wf(),
        decreases items, 0nat,
    {
        if len == Some(0) {
            self.writer.push(SEQ_OPEN);
            self.writer.push(SEQ_CLOSE);
            assert(self.writer@ == old(self).writer@ + seq![SEQ_OPEN, SEQ_CLOSE]);
            return Ok(());
        }
        proof {
            F::lemma_opening_len(self@.depth, SEQ_OPEN);
            assert(self.writer.len() == self.writer@.len());
        }
        self.format.start_compound(&mut self.writer, SEQ_OPEN);
        self.first = true;
        let ghost inside = self@;
        let mut i: usize = 0;
        while i < items.len()
            invariant
                i <= items.len(),
                self.wf(),
                self@.depth == inside.depth,
                F::step() <= 1,
                len != Some(0usize),
                inside == old(self)@.open::<F>(SEQ_OPEN),
                items_encoded::<F>(items@, i as nat, inside) == self@.done(),
                self@.first == (i == 0),
            decreases items.len() - i,
        {
            let ghost before = self@;
            match self.visit_seq_elt(&items[i]) {
                Ok(()) => {},
                Err(e) => {
                    proof {
                        assert(items_encoded::<F>(items@, (i + 1) as nat, inside) == item_encoded::<F>(
                            items@[i as int],
                            before.separate::<F>(i == 0),
                        ));
                        lemma_items_failed::<F>(items@, (i + 1) as nat, items@.len(), inside);
                    }
                    return Err(e);
                },
            }
            i += 1;
        }
        self.format.end_compound(&mut self.writer, SEQ_CLOSE);
        Ok(())
    }

    /// Writes one item of a sequence: the mark that sets it apart, unless it
    /// is the first, then the item.
    pub fn visit_seq_elt(&mut self, value: &Value) -> (r: Result<(), Error>)
        requires
            old(self).wf(),
        ensures
            final(self)@ == item_encoded::<F>(
                *value,
                old(self)@.separate::<F>(old(self)@.first),
            ).state,
            r == result_of(
                item_encoded::<F>(*value, old(self)@.separate::<F>(old(self)@.first)).error,
            ),
            r is Ok ==> final(self)@.depth == old(self)@.depth,
            final(self).wf(),
        decreases value, 1nat,
    {
        self.format.item_separator(&mut self.writer, self.first);
        match value.serialize(self) {
            Ok(()) => {},
            Err(e) => {
                return Err(e);
            },
        }
        self.first = false;
        Ok(())
    }

    /// Writes a mapping of `entries` that reports the length `len`: `{}` if
    /// that is zero, else the entries between the delimiters.
    pub fn visit_map(&mut self, len: Option<usize>, entries: &Vec<(Value, Value)>) -> (r: Result<
        (),
        Error,
    >)
        requires
            old(self).wf(),
        ensures
            final(self)@ == mapping_encoded::<F>(len, entries@, old(self)@).state,
            r == result_of(mapping_encoded::<F>(len, entries@, old(self)@).error),
            r is Ok ==> final(self)@.depth == old(self)@.depth,
            final(self).wf(),
        decreases entries, 0nat,
    {
        if len == Some(0) {
            self.writer.push(MAP_OPEN);
            self.writer.push(MAP_CLOSE);
            assert(self.writer@ == old(self).writer@ + seq![MAP_OPEN, MAP_CLOSE]);
            return Ok(());
        }
        proof {
            F::lemma_opening_len(self@.depth, MAP_OPEN);
            assert(self.writer.len() == self.writer@.len());
        }
        self.format.start_compound(&mut self.writer, MAP_OPEN);
        self.first = true;
        let ghost inside = self@;
        let mut i: usize = 0;
        while i < entries.len()
            invariant
                i <= entries.len(),
                self.wf(),
                self@.depth == inside.depth,
                F::step() <= 1,
                len != Some(0usize),
                inside == old(self)@.open::<F>(MAP_OPEN),
                entries_encoded::<F>(entries@, i as nat, inside) == self@.done(),
                self@.first == (i == 0),
            decreases entries.len() - i,
        {
            let ghost before = self@;
            match self.visit_map_elt(&entries[i].0, &entries[i].1) {
                Ok(()) => {},
                Err(e) => {
                    proof {
                        assert(entries_encoded::<F>(entries@, (i + 1) as nat, inside)
                            == entry_encoded::<F>(
                            entries@[i as int].0,
                            entries@[i as int].1,
                            before.separate::<F>(i == 0),
                        ));
                        lemma_entries_failed::<F>(
                            entries@,
                            (i + 1) as nat,
                            entries@.len(),
                            inside,
                        );
                    }
                    return Err(e);
                },
            }
            i += 1;
        }
        self.format.end_compound(&mut self.writer, MAP_CLOSE);
        Ok(())
    }

    /// Writes one entry of a mapping: the mark that sets it apart, unless it
    /// is the first, then the bare key, the mark behind the key, and the
    /// value. A key that is not a string is refused behind the first mark.
    pub fn visit_map_elt(&mut self, key: &Value, value: &Value) -> (r: Result<(), Error>)
        requires
            old(self).wf(),
        ensures
            final(self)@ == entry_encoded::<F>(
                *key,
                *value,
                old(self)@.separate::<F>(old(self)@.first),
            ).state,
            r == result_of(
                entry_encoded::<F>(
                    *key,
                    *value,
                    old(self)@.separate::<F>(old(self)@.first),
                ).error,
            ),
            r is Ok ==> final(self)@.depth == old(self)@.depth,
            final(self).wf(),
        decreases value, 1nat,
    {
        self.format.item_separator(&mut self.writer, self.first);
        match self.visit_key(key) {
            Ok(()) => {},
            Err(e) => {
                return Err(e);
            },
        }
        self.format.key_separator(&mut self.writer);
        match value.serialize(self) {
            Ok(()) => {},
            Err(e) => {
                return Err(e);
            },
        }
        self.first = false;
        Ok(())
    }

    /// Writes a mapping key: the bytes of a string as they are, without
    /// quotes or escapes. Any other value is refused, and nothing is written.
    pub fn visit_key(&mut self, key: &Value) -> (r: Result<(), Error>)
        requires
            old(self).wf(),
        ensures
            match key_text(*key) {
                Some(name) => r is Ok && final(self)@ == old(self)@.write(name),
                None => r == result_of(Some(ErrorCode::InvalidKey)) && final(self)@ == old(self)@,
            },
            final(self).wf(),
    {
        match key {
            Value::Str(name) => {
                write_bytes(&mut self.writer, name.as_str().as_bytes());
                Ok(())
            },
            _ => Err(Error::SyntaxError(ErrorCode::InvalidKey, 0, 0, 0)),
        }
    }
}

impl Value {
    /// Writes the value with `serializer`. The first failure ends the call,
    /// and what was written before it stays written.
    pub fn serialize<F: Formatter>(&self, serializer: &mut Serializer<F>) -> (r: Result<(), Error>)
        requires
            old(serializer).wf(),
        ensures
            final(serializer)@ == encoded::<F>(*self, old(serializer)@).state,
            r == result_of(encoded::<F>(*self, old(serializer)@).error),
            r is Ok <==> encodable(*self),
            r is Ok ==> final(serializer)@.depth == old(serializer)@.depth,
            final(serializer).wf(),
        decreases self, 0nat,
    {
        proof {
            lemma_succeeds_iff_encodable::<F>(*self, serializer@);
        }
        match self {
            Value::Bool(v) => {
                serializer.visit_bool(*v);
                Ok(())
            },
            Value::Int(v) => {
                serializer.visit_i64(*v);
                Ok(())
            },
            Value::UInt(v) => {
                serializer.visit_u64(*v);
                Ok(())
            },
            Value::Float { finite, shortest } => {
                serializer.visit_f64(*finite, shortest.as_str());
                Ok(())
            },
            Value::Str(v) => {
                serializer.visit_str(v.as_str());
                Ok(())
            },
            Value::Sequence { len, items } => serializer.visit_seq(*len, items),
            Value::Mapping { len, entries } => serializer.visit_map(*len, entries),
            Value::Absent => serializer.visit_none(),
        }
    }
}

/// Encodes `value` on one line and appends the text to `writer`. If the
/// encoding fails, what was written before the failure is appended all the
/// same.
pub fn to_writer(writer: &mut Vec<u8>, value: &Value) -> (r: Result<(), Error>)
    ensures
        final(writer)@ == old(writer)@ + encoded::<CompactFormatter>(
            *value,
            State::start(),
        ).state.text,
        r == result_of(encoded::<CompactFormatter>(*value, State::start()).error),
        r is Ok <==> encodable(*value),
{
    let mut serializer = Serializer::new(Vec::new());
    let r = value.serialize(&mut serializer);
    let text = serializer.into_inner();
    write_bytes(writer, text.as_slice());
    r
}

/// Encodes `value` with one item to a line and appends the text to `writer`.
/// If the encoding fails, what was written before the failure is appended
/// all the same.
pub fn to_writer_pretty(writer: &mut Vec<u8>, value: &Value) -> (r: Result<(), Error>)
    ensures
        final(writer)@ == old(writer)@ + encoded::<PrettyFormatter>(
            *value,
            State::start(),
        ).state.text,
        r == result_of(encoded::<PrettyFormatter>(*value, State::start()).error),
        r is Ok <==> encodable(*value),
{
    let mut serializer = Serializer::pretty(Vec::new());
    let r = value.serialize(&mut serializer);
    let text = serializer.into_inner();
    write_bytes(writer, text.as_slice());
    r
}

/// What the two functions that return the text give for the end of an
/// encoding: the whole text if nothing failed, else the syntax error of the
/// code and no text.
pub open spec fn text_of(end: Outcome) -> Result<Seq<u8>, Error> {
    match end.error {
        None => Ok(end.state.text),
        Some(code) => Err(Error::SyntaxError(code, 0, 0, 0)),
    }
}

/// The view of a returned text.
pub open spec fn viewed(r: Result<Vec<u8>, Error>) -> Result<Seq<u8>, Error> {
    match r {
        Ok(text) => Ok(text@),
        Err(error) => Err(error),
    }
}

/// The text of `value` on one line.
pub fn to_vec(value: &Value) -> (r: Result<Vec<u8>, Error>)
    ensures
        viewed(r) == text_of(encoded::<CompactFormatter>(*value, State::start())),
        r is Ok <==> encodable(*value),
{
    let mut writer: Vec<u8> = Vec::new();
    match to_writer(&mut writer, value) {
        Ok(()) => Ok(writer),
        Err(e) => Err(e),
    }
}

/// The text of `value` with one item to a line, indented by two spaces for
/// each container around it.
pub fn to_vec_pretty(value: &Value) -> (r: Result<Vec<u8>, Error>)
    ensures
        viewed(r) == text_of(encoded::<PrettyFormatter>(*value, State::start())),
        r is Ok <==> encodable(*value),
{
    let mut writer: Vec<u8> = Vec::new();
    match to_writer_pretty(&mut writer, value) {
        Ok(()) => Ok(writer),
        Err(e) => Err(e),
    }
}

} // verus!
