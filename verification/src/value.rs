//! The values that can be encoded, and what their encoding is.

use crate::error::ErrorCode;
use crate::format::Formatter;
use crate::scalar::{bool_text, float_text, int_text, str_text};
use vstd::prelude::*;
use vstd::utf8::encode_utf8;

verus! {

/// `[`, which opens a sequence.
pub const SEQ_OPEN: u8 = 0x5B;

/// `]`, which closes a sequence.
pub const SEQ_CLOSE: u8 = 0x5D;

/// `{`, which opens a mapping.
pub const MAP_OPEN: u8 = 0x7B;

/// `}`, which closes a mapping.
pub const MAP_CLOSE: u8 = 0x7D;

/// A value graph as the encoder receives it.
#[derive(Debug)]
pub enum Value {
    /// A boolean.
    Bool(bool),
    /// A signed integer.
    Int(i64),
    /// An unsigned integer.
    UInt(u64),
    /// A floating-point number, given by the shortest decimal text that
    /// reads back as the same number, and by whether it is finite (neither
    /// NaN nor infinite).
    Float { finite: bool, shortest: String },
    /// A string.
    Str(String),
    /// An ordered list of values. `len` is the length that the list reports
    /// of itself, if it reports one; it need not be the number of `items`.
    Sequence { len: Option<usize>, items: Vec<Value> },
    /// An ordered list of pairs of a key and a value, written in the order
    /// given. `len` is the length that the mapping reports of itself.
    Mapping { len: Option<usize>, entries: Vec<(Value, Value)> },
    /// A missing value. The format has no text for it.
    Absent,
}

impl Value {
    /// The string value with the characters of `text`.
    pub fn string(text: &str) -> (value: Value)
        ensures
            value matches Value::Str(held) && held@ == text@,
    {
        Value::Str(text.to_owned())
    }

    /// The sequence of `items`, which reports how many they are.
    pub fn sequence(items: Vec<Value>) -> (value: Value)
        ensures
            value == (Value::Sequence { len: Some(items.len()), items }),
    {
        let len = items.len();
        Value::Sequence { len: Some(len), items }
    }

    /// The mapping of `entries`, which reports how many they are.
    pub fn mapping(entries: Vec<(Value, Value)>) -> (value: Value)
        ensures
            value == (Value::Mapping { len: Some(entries.len()), entries }),
    {
        let len = entries.len();
        Value::Mapping { len: Some(len), entries }
    }
}

/// What an encoder has done so far.
#[verifier::ext_equal]
pub struct State {
    /// The bytes written.
    pub text: Seq<u8>,
    /// How many indenting containers are open.
    pub depth: nat,
    /// Whether the next item is the first of its container.
    pub first: bool,
}

/// Where an encoding ended: in `state`, and with `error` if it failed.
#[verifier::ext_equal]
pub struct Outcome {
    pub state: State,
    pub error: Option<ErrorCode>,
}

impl State {
    /// An encoder that has written nothing.
    pub open spec fn start() -> State {
        State { text: Seq::empty(), depth: 0, first: false }
    }

    /// The state after writing `bytes`.
    pub open spec fn write(self, bytes: Seq<u8>) -> State {
        State { text: self.text + bytes, ..self }
    }

    /// The state after an item has been written in full.
    pub open spec fn item_done(self) -> State {
        State { first: false, ..self }
    }

    /// The state after opening a container with the delimiter `ch`.
    pub open spec fn open<F: Formatter>(self, ch: u8) -> State {
        State {
            text: self.text + F::opening(self.depth, ch),
            depth: self.depth + F::step(),
            first: true,
        }
    }

    /// The state after closing a container with the delimiter `ch`.
    pub open spec fn close<F: Formatter>(self, ch: u8) -> State {
        State {
            text: self.text + F::closing(self.depth, ch),
            depth: (self.depth - F::step()) as nat,
            first: self.first,
        }
    }

    /// The state after the mark that sets an item apart from the one before
    /// it. The first item of a container has none.
    pub open spec fn separate<F: Formatter>(self, first: bool) -> State {
        if first {
            self
        } else {
            self.write(F::item_mark(self.depth))
        }
    }

    /// Whether the text has room for the depth: a rendering that indents has
    /// written two bytes for each container that is open.
    pub open spec fn has_room<F: Formatter>(self) -> bool {
        F::step() == 0 || 2 * self.depth <= self.text.len()
    }

    /// The same state with `prefix` in front of its text.
    pub open spec fn behind(self, prefix: Seq<u8>) -> State {
        State { text: prefix + self.text, ..self }
    }

    /// Ends without an error.
    pub open spec fn done(self) -> Outcome {
        Outcome { state: self, error: None }
    }

    /// Ends with the error `code`.
    pub open spec fn fail(self, code: ErrorCode) -> Outcome {
        Outcome { state: self, error: Some(code) }
    }
}

impl Outcome {
    /// Marks the item as written where nothing has failed.
    pub open spec fn then_item_done(self) -> Outcome {
        if self.error is Some {
            self
        } else {
            self.state.item_done().done()
        }
    }

    /// The same end with `prefix` in front of its text.
    pub open spec fn behind(self, prefix: Seq<u8>) -> Outcome {
        Outcome { state: self.state.behind(prefix), error: self.error }
    }

    /// Closes the container where nothing inside it has failed.
    pub open spec fn then_close<F: Formatter>(self, ch: u8) -> Outcome {
        if self.error is Some {
            self
        } else {
            self.state.close::<F>(ch).done()
        }
    }
}

/// The bytes of a mapping key: those of a string, written bare. No other
/// value can be a key.
pub open spec fn key_text(key: Value) -> Option<Seq<u8>> {
    match key {
        Value::Str(name) => Some(encode_utf8(name@)),
        _ => None,
    }
}

/// Encoding `value` from the state `from`, with the punctuation of `F`.
///
/// A scalar adds its text. An absent value fails and adds nothing. A
/// container that reports the length zero adds `[]` or `{}` and nothing of
/// what it holds; any other is opened, followed by its items in order, and
/// closed. The first failure ends the encoding with what was written before.
pub open spec fn encoded<F: Formatter>(value: Value, from: State) -> Outcome
    decreases value, 0nat,
{
    match value {
        Value::Bool(v) => from.write(bool_text(v)).done(),
        Value::Int(v) => from.write(int_text(v as int)).done(),
        Value::UInt(v) => from.write(int_text(v as int)).done(),
        Value::Float { finite, shortest } => from.write(
            float_text(finite, encode_utf8(shortest@)),
        ).done(),
        Value::Str(v) => from.write(str_text(encode_utf8(v@))).done(),
        Value::Absent => from.fail(ErrorCode::UnrepresentableValue),
        Value::Sequence { len, items } => sequence_encoded::<F>(len, items@, from),
        Value::Mapping { len, entries } => mapping_encoded::<F>(len, entries@, from),
    }
}

/// Encoding a sequence of `items` that reports the length `len`.
pub open spec fn sequence_encoded<F: Formatter>(
    len: Option<usize>,
    items: Seq<Value>,
    from: State,
) -> Outcome
    decreases items, items.len() + 3,
{
    if len == Some(0usize) {
        from.write(seq![SEQ_OPEN, SEQ_CLOSE]).done()
    } else {
        items_encoded::<F>(items, items.len(), from.open::<F>(SEQ_OPEN)).then_close::<F>(SEQ_CLOSE)
    }
}

/// Encoding a mapping of `entries` that reports the length `len`.
pub open spec fn mapping_encoded<F: Formatter>(
    len: Option<usize>,
    entries: Seq<(Value, Value)>,
    from: State,
) -> Outcome
    decreases entries, entries.len() + 3,
{
    if len == Some(0usize) {
        from.write(seq![MAP_OPEN, MAP_CLOSE]).done()
    } else {
        entries_encoded::<F>(entries, entries.len(), from.open::<F>(MAP_OPEN)).then_close::<F>(
            MAP_CLOSE,
        )
    }
}

/// Encoding the item `value` of a sequence from the state `from`, which
/// stands behind the mark that sets the item apart.
pub open spec fn item_encoded<F: Formatter>(value: Value, from: State) -> Outcome
    decreases value, 1nat,
{
    encoded::<F>(value, from).then_item_done()
}

/// Encoding the entry of `key` and `value` of a mapping from the state
/// `from`, which stands behind the mark that sets the entry apart. An entry
/// whose key is not a string fails before any of its own text.
pub open spec fn entry_encoded<F: Formatter>(key: Value, value: Value, from: State) -> Outcome
    decreases value, 1nat,
{
    match key_text(key) {
        None => from.fail(ErrorCode::InvalidKey),
        Some(name) => encoded::<F>(value, from.write(name).write(F::key_mark())).then_item_done(),
    }
}

/// Encoding the first `count` of `items` from the state `from`, which stands
/// just inside their sequence.
pub open spec fn items_encoded<F: Formatter>(items: Seq<Value>, count: nat, from: State) -> Outcome
    decreases items, count + 2,
{
    if count == 0 || count > items.len() {
        from.done()
    } else {
        let before = items_encoded::<F>(items, (count - 1) as nat, from);
        if before.error is Some {
            before
        } else {
            item_encoded::<F>(items[count - 1], before.state.separate::<F>(count == 1))
        }
    }
}

/// Encoding the first `count` of `entries` from the state `from`, which
/// stands just inside their mapping.
pub open spec fn entries_encoded<F: Formatter>(
    entries: Seq<(Value, Value)>,
    count: nat,
    from: State,
) -> Outcome
    decreases entries, count + 2,
{
    if count == 0 || count > entries.len() {
        from.done()
    } else {
        let before = entries_encoded::<F>(entries, (count - 1) as nat, from);
        if before.error is Some {
            before
        } else {
            entry_encoded::<F>(
                entries[count - 1].0,
                entries[count - 1].1,
                before.state.separate::<F>(count == 1),
            )
        }
    }
}

/// Whether the encoder meets an absent value in `value`: the value itself,
/// or one among the items, keys and values of a container that does not
/// report the length zero.
pub open spec fn holds_absent(value: Value) -> bool
    decreases value,
{
    match value {
        Value::Absent => true,
        Value::Sequence { len, items } => len != Some(0usize) && exists|i: int|
            0 <= i < items@.len() && holds_absent(#[trigger] items@[i]),
        Value::Mapping { len, entries } => len != Some(0usize) && exists|i: int|
            0 <= i < entries@.len() && (holds_absent((#[trigger] entries@[i]).0) || holds_absent(
                entries@[i].1,
            )),
        _ => false,
    }
}

/// Whether every key that the encoder meets in `value` is a string: the
/// keys of each mapping that does not report the length zero, at any depth.
pub open spec fn string_keys(value: Value) -> bool
    decreases value,
{
    match value {
        Value::Sequence { len, items } => len == Some(0usize) || forall|i: int|
            0 <= i < items@.len() ==> string_keys(#[trigger] items@[i]),
        Value::Mapping { len, entries } => len == Some(0usize) || forall|i: int|
            0 <= i < entries@.len() ==> key_text((#[trigger] entries@[i]).0) is Some
                && string_keys(entries@[i].1),
        _ => true,
    }
}

/// Whether `value` has a text in the format: the encoder meets only string
/// keys and no absent value.
pub open spec fn encodable(value: Value) -> bool {
    string_keys(value) && !holds_absent(value)
}

} // verus!
