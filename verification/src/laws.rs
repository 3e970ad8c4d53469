//! What holds of every encoding, whatever the value and the rendering.

use crate::error::ErrorCode;
use crate::format::Formatter;
use crate::scalar::{escaped, escaped_byte, float_text, hex_digit, BACKSLASH, POINT, QUOTE, ZERO};
use crate::value::{
    encodable, encoded, entries_encoded, entry_encoded, holds_absent, item_encoded,
    items_encoded, key_text, mapping_encoded, string_keys, State, Value, MAP_CLOSE, MAP_OPEN,
    SEQ_CLOSE, SEQ_OPEN,
};
use vstd::prelude::*;

verus! {

/// A sequence that reports the length zero is written as `[]`, and a mapping
/// that does so as `{}`: in every rendering, at every depth, and with
/// nothing of what the formatter would put around or between items.
pub proof fn lemma_empty_containers<F: Formatter>(
    items: Vec<Value>,
    entries: Vec<(Value, Value)>,
    from: State,
)
    ensures
        encoded::<F>(Value::Sequence { len: Some(0), items }, from) == from.write(
            seq![SEQ_OPEN, SEQ_CLOSE],
        ).done(),
        encoded::<F>(Value::Mapping { len: Some(0), entries }, from) == from.write(
            seq![MAP_OPEN, MAP_CLOSE],
        ).done(),
{
}

/// An encoding that succeeds closes every container that it opened: it ends
/// at the depth at which it began.
pub proof fn lemma_balanced<F: Formatter>(value: Value, from: State)
    requires
        encoded::<F>(value, from).error is None,
    ensures
        encoded::<F>(value, from).state.depth == from.depth,
    decreases value, 0nat,
{
    match value {
        Value::Sequence { len, items } => {
            if len != Some(0usize) {
                lemma_items_balanced::<F>(items@, items@.len(), from.open::<F>(SEQ_OPEN));
            }
        },
        Value::Mapping { len, entries } => {
            if len != Some(0usize) {
                lemma_entries_balanced::<F>(entries@, entries@.len(), from.open::<F>(MAP_OPEN));
            }
        },
        _ => {},
    }
}

/// Items that are encoded without a failure leave the depth as it was.
pub proof fn lemma_items_balanced<F: Formatter>(items: Seq<Value>, count: nat, from: State)
    requires
        count <= items.len(),
        items_encoded::<F>(items, count, from).error is None,
    ensures
        items_encoded::<F>(items, count, from).state.depth == from.depth,
    decreases items, count + 2,
{
    if count > 0 {
        let before = items_encoded::<F>(items, (count - 1) as nat, from);
        let at_item = before.state.separate::<F>(count == 1);
        assert(item_encoded::<F>(items[count - 1], at_item) == encoded::<F>(
            items[count - 1],
            at_item,
        ).then_item_done());
        lemma_items_balanced::<F>(items, (count - 1) as nat, from);
        lemma_balanced::<F>(items[count - 1], at_item);
    }
}

/// Entries that are encoded without a failure leave the depth as it was.
pub proof fn lemma_entries_balanced<F: Formatter>(
    entries: Seq<(Value, Value)>,
    count: nat,
    from: State,
)
    requires
        count <= entries.len(),
        entries_encoded::<F>(entries, count, from).error is None,
    ensures
        entries_encoded::<F>(entries, count, from).state.depth == from.depth,
    decreases entries, count + 2,
{
    if count > 0 {
        let before = entries_encoded::<F>(entries, (count - 1) as nat, from);
        lemma_entries_balanced::<F>(entries, (count - 1) as nat, from);
        let at_key = before.state.separate::<F>(count == 1);
        let (key, value) = entries[count - 1];
        assert(entry_encoded::<F>(key, value, at_key) == match key_text(key) {
            None => at_key.fail(ErrorCode::InvalidKey),
            Some(name) => encoded::<F>(
                value,
                at_key.write(name).write(F::key_mark()),
            ).then_item_done(),
        });
        lemma_balanced::<F>(value, at_key.write(key_text(key)->0).write(F::key_mark()));
    }
}

/// A mapping with a key that is not a string fails with `InvalidKey`,
/// provided that it does not report the length zero and that the entries in
/// front of that key are encoded without a failure. What has been written
/// then ends with the mark that sets the entry apart: nothing of its key or
/// its value follows.
pub proof fn lemma_invalid_key<F: Formatter>(
    len: Option<usize>,
    entries: Seq<(Value, Value)>,
    index: nat,
    from: State,
)
    requires
        len != Some(0usize),
        index < entries.len(),
        key_text(entries[index as int].0) is None,
        entries_encoded::<F>(entries, index, from.open::<F>(MAP_OPEN)).error is None,
    ensures
        mapping_encoded::<F>(len, entries, from) == entries_encoded::<F>(
            entries,
            index,
            from.open::<F>(MAP_OPEN),
        ).state.separate::<F>(index == 0).fail(ErrorCode::InvalidKey),
{
    let inside = from.open::<F>(MAP_OPEN);
    assert(entries_encoded::<F>(entries, index + 1, inside) == entry_encoded::<F>(
        entries[index as int].0,
        entries[index as int].1,
        entries_encoded::<F>(entries, index, inside).state.separate::<F>(index == 0),
    ));
    lemma_entries_failed::<F>(entries, index + 1, entries.len(), inside);
}

/// An encoding succeeds exactly on the values that are encodable, in every
/// rendering and from every state.
pub proof fn lemma_succeeds_iff_encodable<F: Formatter>(value: Value, from: State)
    ensures
        encoded::<F>(value, from).error is None <==> encodable(value),
    decreases value, 0nat,
{
    match value {
        Value::Sequence { len, items } => {
            if len != Some(0usize) {
                lemma_items_succeed::<F>(items@, items@.len(), from.open::<F>(SEQ_OPEN));
            }
        },
        Value::Mapping { len, entries } => {
            if len != Some(0usize) {
                lemma_entries_succeed::<F>(entries@, entries@.len(), from.open::<F>(MAP_OPEN));
                assert forall|i: int|
                    0 <= i < entries@.len() && key_text(
                        (#[trigger] entries@[i]).0,
                    ) is Some implies !holds_absent(entries@[i].0) by {}
            }
        },
        _ => {},
    }
}

/// The first `count` items are encoded without a failure exactly if each of
/// them is encodable.
pub proof fn lemma_items_succeed<F: Formatter>(items: Seq<Value>, count: nat, from: State)
    requires
        count <= items.len(),
    ensures
        items_encoded::<F>(items, count, from).error is None <==> forall|i: int|
            0 <= i < count ==> encodable(#[trigger] items[i]),
    decreases items, count + 2,
{
    if count > 0 {
        let before = items_encoded::<F>(items, (count - 1) as nat, from);
        let at_item = before.state.separate::<F>(count == 1);
        assert(item_encoded::<F>(items[count - 1], at_item) == encoded::<F>(
            items[count - 1],
            at_item,
        ).then_item_done());
        lemma_items_succeed::<F>(items, (count - 1) as nat, from);
        lemma_succeeds_iff_encodable::<F>(items[count - 1], at_item);
    }
}

/// The first `count` entries are encoded without a failure exactly if each
/// of them has a string for its key and an encodable value.
pub proof fn lemma_entries_succeed<F: Formatter>(
    entries: Seq<(Value, Value)>,
    count: nat,
    from: State,
)
    requires
        count <= entries.len(),
    ensures
        entries_encoded::<F>(entries, count, from).error is None <==> forall|i: int|
            0 <= i < count ==> key_text((#[trigger] entries[i]).0) is Some && encodable(
                entries[i].1,
            ),
    decreases entries, count + 2,
{
    if count > 0 {
        let before = entries_encoded::<F>(entries, (count - 1) as nat, from);
        let at_key = before.state.separate::<F>(count == 1);
        let (key, value) = entries[count - 1];
        assert(entry_encoded::<F>(key, value, at_key) == match key_text(key) {
            None => at_key.fail(ErrorCode::InvalidKey),
            Some(name) => encoded::<F>(
                value,
                at_key.write(name).write(F::key_mark()),
            ).then_item_done(),
        });
        lemma_entries_succeed::<F>(entries, (count - 1) as nat, from);
        if key_text(key) is Some {
            lemma_succeeds_iff_encodable::<F>(
                value,
                at_key.write(key_text(key)->0).write(F::key_mark()),
            );
        }
    }
}

/// Where every key is a string, no encoding fails with `InvalidKey`.
pub proof fn lemma_string_keys_are_valid<F: Formatter>(value: Value, from: State)
    requires
        string_keys(value),
    ensures
        encoded::<F>(value, from).error != Some(ErrorCode::InvalidKey),
    decreases value, 0nat,
{
    match value {
        Value::Sequence { len, items } => {
            if len != Some(0usize) {
                lemma_items_keys_are_valid::<F>(items@, items@.len(), from.open::<F>(SEQ_OPEN));
            }
        },
        Value::Mapping { len, entries } => {
            if len != Some(0usize) {
                lemma_entries_keys_are_valid::<F>(
                    entries@,
                    entries@.len(),
                    from.open::<F>(MAP_OPEN),
                );
            }
        },
        _ => {},
    }
}

/// Items in which every key is a string do not fail with `InvalidKey`.
pub proof fn lemma_items_keys_are_valid<F: Formatter>(items: Seq<Value>, count: nat, from: State)
    requires
        count <= items.len(),
        forall|i: int| 0 <= i < count ==> string_keys(#[trigger] items[i]),
    ensures
        items_encoded::<F>(items, count, from).error != Some(ErrorCode::InvalidKey),
    decreases items, count + 2,
{
    if count > 0 {
        let before = items_encoded::<F>(items, (count - 1) as nat, from);
        let at_item = before.state.separate::<F>(count == 1);
        assert(item_encoded::<F>(items[count - 1], at_item) == encoded::<F>(
            items[count - 1],
            at_item,
        ).then_item_done());
        lemma_items_keys_are_valid::<F>(items, (count - 1) as nat, from);
        lemma_string_keys_are_valid::<F>(items[count - 1], at_item);
    }
}

/// Entries with string keys, in whose values every key is a string, do not
/// fail with `InvalidKey`.
pub proof fn lemma_entries_keys_are_valid<F: Formatter>(
    entries: Seq<(Value, Value)>,
    count: nat,
    from: State,
)
    requires
        count <= entries.len(),
        forall|i: int|
            0 <= i < count ==> key_text((#[trigger] entries[i]).0) is Some && string_keys(
                entries[i].1,
            ),
    ensures
        entries_encoded::<F>(entries, count, from).error != Some(ErrorCode::InvalidKey),
    decreases entries, count + 2,
{
    if count > 0 {
        let before = entries_encoded::<F>(entries, (count - 1) as nat, from);
        let at_key = before.state.separate::<F>(count == 1);
        let (key, value) = entries[count - 1];
        assert(entry_encoded::<F>(key, value, at_key) == match key_text(key) {
            None => at_key.fail(ErrorCode::InvalidKey),
            Some(name) => encoded::<F>(
                value,
                at_key.write(name).write(F::key_mark()),
            ).then_item_done(),
        });
        lemma_entries_keys_are_valid::<F>(entries, (count - 1) as nat, from);
        lemma_string_keys_are_valid::<F>(
            value,
            at_key.write(key_text(key)->0).write(F::key_mark()),
        );
    }
}

/// A value in which the encoder meets an absent value is refused. Where
/// every key that it meets is a string, the error is `UnrepresentableValue`;
/// a key that is not a string may come first and decide the error.
pub proof fn lemma_absent_is_refused<F: Formatter>(value: Value, from: State)
    requires
        holds_absent(value),
    ensures
        encoded::<F>(value, from).error is Some,
        string_keys(value) ==> encoded::<F>(value, from).error == Some(
            ErrorCode::UnrepresentableValue,
        ),
{
    lemma_succeeds_iff_encodable::<F>(value, from);
    if string_keys(value) {
        lemma_string_keys_are_valid::<F>(value, from);
    }
}

/// Whether an encoding fails, and with which error, depends on the value
/// alone: not on the rendering, nor on what was written before.
pub proof fn lemma_same_failure<F: Formatter, G: Formatter>(value: Value, a: State, b: State)
    ensures
        encoded::<F>(value, a).error == encoded::<G>(value, b).error,
    decreases value, 0nat,
{
    match value {
        Value::Sequence { len, items } => {
            if len != Some(0usize) {
                lemma_items_same_failure::<F, G>(
                    items@,
                    items@.len(),
                    a.open::<F>(SEQ_OPEN),
                    b.open::<G>(SEQ_OPEN),
                );
            }
        },
        Value::Mapping { len, entries } => {
            if len != Some(0usize) {
                lemma_entries_same_failure::<F, G>(
                    entries@,
                    entries@.len(),
                    a.open::<F>(MAP_OPEN),
                    b.open::<G>(MAP_OPEN),
                );
            }
        },
        _ => {},
    }
}

/// The first `count` items fail alike in two renderings.
pub proof fn lemma_items_same_failure<F: Formatter, G: Formatter>(
    items: Seq<Value>,
    count: nat,
    a: State,
    b: State,
)
    requires
        count <= items.len(),
    ensures
        items_encoded::<F>(items, count, a).error == items_encoded::<G>(items, count, b).error,
    decreases items, count + 2,
{
    if count > 0 {
        let at_a = items_encoded::<F>(items, (count - 1) as nat, a).state.separate::<F>(
            count == 1,
        );
        let at_b = items_encoded::<G>(items, (count - 1) as nat, b).state.separate::<G>(
            count == 1,
        );
        assert(item_encoded::<F>(items[count - 1], at_a) == encoded::<F>(
            items[count - 1],
            at_a,
        ).then_item_done());
        assert(item_encoded::<G>(items[count - 1], at_b) == encoded::<G>(
            items[count - 1],
            at_b,
        ).then_item_done());
        lemma_items_same_failure::<F, G>(items, (count - 1) as nat, a, b);
        lemma_same_failure::<F, G>(items[count - 1], at_a, at_b);
    }
}

/// The first `count` entries fail alike in two renderings.
pub proof fn lemma_entries_same_failure<F: Formatter, G: Formatter>(
    entries: Seq<(Value, Value)>,
    count: nat,
    a: State,
    b: State,
)
    requires
        count <= entries.len(),
    ensures
        entries_encoded::<F>(entries, count, a).error == entries_encoded::<G>(
            entries,
            count,
            b,
        ).error,
    decreases entries, count + 2,
{
    if count > 0 {
        let at_a = entries_encoded::<F>(entries, (count - 1) as nat, a).state.separate::<F>(
            count == 1,
        );
        let at_b = entries_encoded::<G>(entries, (count - 1) as nat, b).state.separate::<G>(
            count == 1,
        );
        let (key, value) = entries[count - 1];
        assert(entry_encoded::<F>(key, value, at_a) == match key_text(key) {
            None => at_a.fail(ErrorCode::InvalidKey),
            Some(name) => encoded::<F>(
                value,
                at_a.write(name).write(F::key_mark()),
            ).then_item_done(),
        });
        assert(entry_encoded::<G>(key, value, at_b) == match key_text(key) {
            None => at_b.fail(ErrorCode::InvalidKey),
            Some(name) => encoded::<G>(
                value,
                at_b.write(name).write(G::key_mark()),
            ).then_item_done(),
        });
        lemma_entries_same_failure::<F, G>(entries, (count - 1) as nat, a, b);
        if key_text(key) is Some {
            lemma_same_failure::<F, G>(
                value,
                at_a.write(key_text(key)->0).write(F::key_mark()),
                at_b.write(key_text(key)->0).write(G::key_mark()),
            );
        }
    }
}

/// An encoding only appends: what it writes, where it ends and whether it
/// fails do not depend on the text that was written before, and that text
/// stays in front unchanged, on a failure too.
pub proof fn lemma_appends<F: Formatter>(value: Value, from: State, prefix: Seq<u8>)
    ensures
        encoded::<F>(value, from.behind(prefix)) == encoded::<F>(value, from).behind(prefix),
    decreases value, 0nat,
{
    match value {
        Value::Sequence { len, items } => {
            if len != Some(0usize) {
                assert(from.behind(prefix).open::<F>(SEQ_OPEN) == from.open::<F>(SEQ_OPEN).behind(
                    prefix,
                ));
                lemma_items_append::<F>(items@, items@.len(), from.open::<F>(SEQ_OPEN), prefix);
            }
        },
        Value::Mapping { len, entries } => {
            if len != Some(0usize) {
                assert(from.behind(prefix).open::<F>(MAP_OPEN) == from.open::<F>(MAP_OPEN).behind(
                    prefix,
                ));
                lemma_entries_append::<F>(
                    entries@,
                    entries@.len(),
                    from.open::<F>(MAP_OPEN),
                    prefix,
                );
            }
        },
        _ => {},
    }
}

/// The items of a sequence are appended to what was written before.
pub proof fn lemma_items_append<F: Formatter>(
    items: Seq<Value>,
    count: nat,
    from: State,
    prefix: Seq<u8>,
)
    requires
        count <= items.len(),
    ensures
        items_encoded::<F>(items, count, from.behind(prefix)) == items_encoded::<F>(
            items,
            count,
            from,
        ).behind(prefix),
    decreases items, count + 2,
{
    if count > 0 {
        let before = items_encoded::<F>(items, (count - 1) as nat, from);
        let at_item = before.state.separate::<F>(count == 1);
        lemma_items_append::<F>(items, (count - 1) as nat, from, prefix);
        assert(before.state.behind(prefix).separate::<F>(count == 1) == at_item.behind(prefix));
        assert(item_encoded::<F>(items[count - 1], at_item) == encoded::<F>(
            items[count - 1],
            at_item,
        ).then_item_done());
        assert(item_encoded::<F>(items[count - 1], at_item.behind(prefix)) == encoded::<F>(
            items[count - 1],
            at_item.behind(prefix),
        ).then_item_done());
        lemma_appends::<F>(items[count - 1], at_item, prefix);
    }
}

/// The entries of a mapping are appended to what was written before.
pub proof fn lemma_entries_append<F: Formatter>(
    entries: Seq<(Value, Value)>,
    count: nat,
    from: State,
    prefix: Seq<u8>,
)
    requires
        count <= entries.len(),
    ensures
        entries_encoded::<F>(entries, count, from.behind(prefix)) == entries_encoded::<F>(
            entries,
            count,
            from,
        ).behind(prefix),
    decreases entries, count + 2,
{
    if count > 0 {
        let before = entries_encoded::<F>(entries, (count - 1) as nat, from);
        let at_key = before.state.separate::<F>(count == 1);
        let (key, value) = entries[count - 1];
        lemma_entries_append::<F>(entries, (count - 1) as nat, from, prefix);
        assert(before.state.behind(prefix).separate::<F>(count == 1) == at_key.behind(prefix));
        assert(entry_encoded::<F>(key, value, at_key) == match key_text(key) {
            None => at_key.fail(ErrorCode::InvalidKey),
            Some(name) => encoded::<F>(
                value,
                at_key.write(name).write(F::key_mark()),
            ).then_item_done(),
        });
        assert(entry_encoded::<F>(key, value, at_key.behind(prefix)) == match key_text(key) {
            None => at_key.behind(prefix).fail(ErrorCode::InvalidKey),
            Some(name) => encoded::<F>(
                value,
                at_key.behind(prefix).write(name).write(F::key_mark()),
            ).then_item_done(),
        });
        if key_text(key) is Some {
            let at_value = at_key.write(key_text(key)->0).write(F::key_mark());
            assert(at_key.behind(prefix).write(key_text(key)->0).write(F::key_mark())
                == at_value.behind(prefix));
            lemma_appends::<F>(value, at_value, prefix);
        }
    }
}

/// How many decimal points `text` holds.
pub open spec fn points(text: Seq<u8>) -> nat
    decreases text.len(),
{
    if text.len() == 0 {
        0
    } else {
        points(text.drop_last()) + if text.last() == POINT {
            1nat
        } else {
            0nat
        }
    }
}

/// A text holds no decimal point exactly if it counts none.
pub proof fn lemma_points_none(text: Seq<u8>)
    ensures
        points(text) == 0 <==> !text.contains(POINT),
    decreases text.len(),
{
    if text.len() > 0 {
        lemma_points_none(text.drop_last());
        if text.contains(POINT) {
            let i = choose|i: int| 0 <= i < text.len() && text[i] == POINT;
            if i < text.len() - 1 {
                assert(text.drop_last()[i] == POINT);
            }
        } else {
            assert forall|i: int| 0 <= i < text.drop_last().len() implies text.drop_last()[i]
                != POINT by {
                assert(text[i] != POINT);
            }
        }
    }
}

/// The text of a finite float always holds a decimal point: exactly one
/// where the shortest text of the number holds none, and as many as that
/// text holds otherwise. So it holds exactly one whenever the shortest text
/// holds at most one.
pub proof fn lemma_finite_float_points(shortest: Seq<u8>)
    ensures
        float_text(true, shortest).contains(POINT),
        points(float_text(true, shortest)) == if points(shortest) == 0 {
            1
        } else {
            points(shortest)
        },
{
    lemma_points_none(shortest);
    let text = float_text(true, shortest);
    if !shortest.contains(POINT) {
        assert(text[shortest.len() as int] == POINT);
        let inner = text.drop_last();
        assert(inner == shortest.push(POINT));
        assert(inner.drop_last() == shortest);
        assert(points(inner) == points(shortest) + 1);
        assert(points(text) == points(inner));
    }
}

/// The text of a float that is not finite is the text that was given.
pub proof fn lemma_other_float_kept(shortest: Seq<u8>)
    ensures
        float_text(false, shortest) == shortest,
{
}

/// The number that an upper-case hexadecimal digit stands for.
pub open spec fn hex_value(c: u8) -> nat {
    if c >= 0x41 {
        (c - 0x37) as nat
    } else {
        (c - ZERO) as nat
    }
}

/// Reads escaped text back: a byte that is no backslash stands for itself,
/// a backslash with `t`, `n`, `r`, a quote or a backslash behind it for the
/// byte that the pair names, and a backslash with two hexadecimal digits
/// for the byte with that number.
pub open spec fn unescaped(text: Seq<u8>) -> Seq<u8>
    decreases text.len(),
{
    if text.len() == 0 {
        Seq::empty()
    } else if text[0] != BACKSLASH {
        seq![text[0]] + unescaped(text.skip(1))
    } else if text.len() < 2 {
        Seq::empty()
    } else if text[1] == 0x74 {
        seq![0x09u8] + unescaped(text.skip(2))
    } else if text[1] == 0x6E {
        seq![0x0Au8] + unescaped(text.skip(2))
    } else if text[1] == 0x72 {
        seq![0x0Du8] + unescaped(text.skip(2))
    } else if text[1] == QUOTE || text[1] == BACKSLASH {
        seq![text[1]] + unescaped(text.skip(2))
    } else if text.len() < 3 {
        Seq::empty()
    } else {
        seq![(hex_value(text[1]) * 16 + hex_value(text[2])) as u8] + unescaped(text.skip(3))
    }
}

/// The escapes of a string are the escape of its first byte and then those
/// of the rest.
pub proof fn lemma_escaped_front(bytes: Seq<u8>)
    requires
        bytes.len() > 0,
    ensures
        escaped(bytes) == escaped_byte(bytes[0]) + escaped(bytes.skip(1)),
    decreases bytes.len(),
{
    if bytes.len() == 1 {
        assert(bytes.drop_last().len() == 0);
        assert(bytes.skip(1).len() == 0);
        assert(escaped(bytes) == escaped(bytes.drop_last()) + escaped_byte(bytes.last()));
    } else {
        lemma_escaped_front(bytes.drop_last());
        assert(bytes.drop_last().skip(1) == bytes.skip(1).drop_last());
        assert(bytes.skip(1).last() == bytes.last());
        assert(bytes.drop_last()[0] == bytes[0]);
        assert(escaped(bytes.skip(1)) == escaped(bytes.skip(1).drop_last()) + escaped_byte(
            bytes.last(),
        ));
    }
}

/// Escaping loses nothing: reading the escapes of any bytes back gives the
/// bytes, whether they hold tabs, line breaks, quotes, backslashes, other
/// control bytes or the bytes of multi-byte characters.
pub proof fn lemma_escape_round_trip(bytes: Seq<u8>)
    ensures
        unescaped(escaped(bytes)) == bytes,
    decreases bytes.len(),
{
    if bytes.len() > 0 {
        let b = bytes[0];
        let rest = bytes.skip(1);
        let text = escaped(bytes);
        lemma_escaped_front(bytes);
        lemma_escape_round_trip(rest);
        assert(text == escaped_byte(b) + escaped(rest));
        assert(bytes == seq![b] + rest);
        if escaped_byte(b).len() == 1 {
            assert(text.skip(1) == escaped(rest));
        } else if escaped_byte(b).len() == 2 {
            assert(text.skip(2) == escaped(rest));
        } else {
            assert(text.skip(3) == escaped(rest));
            assert(hex_value(hex_digit((b / 16) as nat)) == b / 16);
            assert(hex_value(hex_digit((b % 16) as nat)) == b % 16);
        }
    }
}

/// Once an item has failed, the items behind it are not looked at.
pub proof fn lemma_items_failed<F: Formatter>(
    items: Seq<Value>,
    failed: nat,
    count: nat,
    from: State,
)
    requires
        failed <= count <= items.len(),
        items_encoded::<F>(items, failed, from).error is Some,
    ensures
        items_encoded::<F>(items, count, from) == items_encoded::<F>(items, failed, from),
    decreases count,
{
    if failed < count {
        lemma_items_failed::<F>(items, failed, (count - 1) as nat, from);
    }
}

/// Once an entry has failed, the entries behind it are not looked at.
pub proof fn lemma_entries_failed<F: Formatter>(
    entries: Seq<(Value, Value)>,
    failed: nat,
    count: nat,
    from: State,
)
    requires
        failed <= count <= entries.len(),
        entries_encoded::<F>(entries, failed, from).error is Some,
    ensures
        entries_encoded::<F>(entries, count, from) == entries_encoded::<F>(entries, failed, from),
    decreases count,
{
    if failed < count {
        lemma_entries_failed::<F>(entries, failed, (count - 1) as nat, from);
    }
}

} // verus!
