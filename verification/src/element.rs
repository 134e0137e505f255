//! What one element and a run of elements look like in a payload.
//!
//! An element is modelled as an integer: its value where the kind is an
//! integer kind, 0 or 1 for a boolean, and its bit pattern (the IEEE-754
//! bits of a float; both parts of a complex number, the real part in the
//! upper half) for the other kinds.

use vstd::prelude::*;

use crate::endian::{
    be_bytes, be_value, lemma_be_bytes_len, lemma_be_bytes_of_value, lemma_be_value_bound,
    lemma_be_value_of_bytes, lemma_radix_pow_values, radix_pow,
};
use crate::kind::Kind;

verus! {

impl Kind {
    /// Whether the elements of this kind are signed integers.
    pub open spec fn signed(self) -> bool {
        self == Kind::Int8 || self == Kind::Int16 || self == Kind::Int || self == Kind::Int64
    }

    /// Whether `value` can be an element of this kind.
    pub open spec fn holds(self, value: int) -> bool {
        if self.signed() {
            -radix_pow(self.width()) <= 2 * value < radix_pow(self.width())
        } else if self == Kind::Bool {
            0 <= value <= 1
        } else {
            0 <= value < radix_pow(self.width())
        }
    }

    /// Whether every one of `values` can be an element of this kind.
    pub open spec fn holds_all(self, values: Seq<int>) -> bool {
        forall|i: int| 0 <= i < values.len() ==> self.holds(#[trigger] values[i])
    }
}

/// The bit pattern of an element, as a number: the element itself, or its
/// two's complement where it is negative.
pub open spec fn pattern(kind: Kind, value: int) -> nat {
    if value < 0 {
        (value + radix_pow(kind.width())) as nat
    } else {
        value as nat
    }
}

/// The element that a bit pattern stands for.
pub open spec fn value_of(kind: Kind, pattern: nat) -> int {
    if kind.signed() && 2 * pattern >= radix_pow(kind.width()) {
        pattern - radix_pow(kind.width())
    } else {
        pattern as int
    }
}

/// The payload of a run of elements: the big-endian bytes of each one's
/// pattern, in order, with nothing between them.
pub open spec fn payload(kind: Kind, values: Seq<int>) -> Seq<u8>
    decreases values.len(),
{
    if values.len() == 0 {
        Seq::empty()
    } else {
        payload(kind, values.drop_last()) + be_bytes(
            pattern(kind, values.last()),
            kind.width(),
        )
    }
}

/// The run of elements that a payload holds, where its length is a multiple
/// of the width of an element.
pub open spec fn parsed(kind: Kind, bytes: Seq<u8>) -> Seq<int>
    decreases bytes.len(),
{
    if bytes.len() < kind.width() {
        Seq::empty()
    } else {
        let split = bytes.len() - kind.width();
        parsed(kind, bytes.take(split)).push(value_of(kind, be_value(bytes.skip(split))))
    }
}

/// The pattern of an element of a kind fits the width of the kind, and
/// stands for that element.
pub proof fn lemma_value_of_pattern(kind: Kind, value: int)
    requires
        kind.holds(value),
    ensures
        pattern(kind, value) < radix_pow(kind.width()),
        value_of(kind, pattern(kind, value)) == value,
{
    lemma_radix_pow_values();
}

/// A pattern that fits the width of a kind other than the boolean stands
/// for an element of that kind, whose pattern it is.
pub proof fn lemma_pattern_of_value(kind: Kind, bits: nat)
    requires
        kind != Kind::Bool,
        bits < radix_pow(kind.width()),
    ensures
        kind.holds(value_of(kind, bits)),
        pattern(kind, value_of(kind, bits)) == bits,
{
}

/// Each element takes as many bytes of the payload as its kind is wide.
pub proof fn lemma_payload_len(kind: Kind, values: Seq<int>)
    ensures
        payload(kind, values).len() == values.len() * kind.width(),
    decreases values.len(),
{
    if values.len() > 0 {
        lemma_payload_len(kind, values.drop_last());
        lemma_be_bytes_len(pattern(kind, values.last()), kind.width());
        assert(values.len() * kind.width() == values.drop_last().len() * kind.width()
            + kind.width()) by (nonlinear_arith)
            requires
                values.len() == values.drop_last().len() + 1,
        ;
    }
}

/// The bytes of the element at `at` lie in the payload where `at` elements
/// before it have taken their bytes.
pub proof fn lemma_payload_chunk(kind: Kind, values: Seq<int>, at: int)
    requires
        0 <= at < values.len(),
    ensures
        (at + 1) * kind.width() <= payload(kind, values).len(),
        payload(kind, values).subrange(at * kind.width(), (at + 1) * kind.width()) == be_bytes(
            pattern(kind, values[at]),
            kind.width(),
        ),
    decreases values.len(),
{
    let width = kind.width() as int;
    let front = values.drop_last();
    let chunk = be_bytes(pattern(kind, values.last()), kind.width());
    lemma_payload_len(kind, values);
    lemma_payload_len(kind, front);
    lemma_be_bytes_len(pattern(kind, values.last()), kind.width());
    assert((at + 1) * width == at * width + width) by (nonlinear_arith);
    if at == values.len() - 1 {
        assert((payload(kind, front) + chunk).subrange(at * width, (at + 1) * width) =~= chunk);
    } else {
        lemma_payload_chunk(kind, front, at);
        assert((payload(kind, front) + chunk).subrange(at * width, (at + 1) * width)
            =~= payload(kind, front).subrange(at * width, (at + 1) * width));
    }
}

/// One more element adds its bytes to the end of the payload.
pub proof fn lemma_payload_push(kind: Kind, values: Seq<int>, value: int)
    ensures
        payload(kind, values.push(value)) == payload(kind, values) + be_bytes(
            pattern(kind, value),
            kind.width(),
        ),
{
    assert(values.push(value).drop_last() =~= values);
}

/// A payload holds one element for each whole width of bytes.
pub proof fn lemma_parsed_len(kind: Kind, bytes: Seq<u8>)
    ensures
        parsed(kind, bytes).len() == bytes.len() / kind.width(),
    decreases bytes.len(),
{
    let w = kind.width();
    if bytes.len() >= w {
        lemma_parsed_len(kind, bytes.take(bytes.len() - w));
        assert((bytes.len() - w) / (w as int) + 1 == bytes.len() as int / w as int) by {
            vstd::arithmetic::div_mod::lemma_div_plus_one(bytes.len() - w, w as int);
        }
    } else {
        vstd::arithmetic::div_mod::lemma_basic_div(bytes.len() as int, w as int);
    }
}

/// One more element's worth of bytes adds the element that they stand for.
pub proof fn lemma_parsed_push(kind: Kind, bytes: Seq<u8>, chunk: Seq<u8>)
    requires
        chunk.len() == kind.width(),
    ensures
        parsed(kind, bytes + chunk) == parsed(kind, bytes).push(
            value_of(kind, be_value(chunk)),
        ),
{
    let all = bytes + chunk;
    let split = all.len() - kind.width();
    assert(all.take(split) =~= bytes);
    assert(all.skip(split) =~= chunk);
}

/// Reading the payload of a run of elements of a kind gives the same run.
pub proof fn lemma_parsed_payload(kind: Kind, values: Seq<int>)
    requires
        kind.holds_all(values),
    ensures
        parsed(kind, payload(kind, values)) == values,
    decreases values.len(),
{
    if values.len() > 0 {
        let front = values.drop_last();
        let last = values.last();
        let chunk = be_bytes(pattern(kind, last), kind.width());
        lemma_parsed_payload(kind, front);
        lemma_be_bytes_len(pattern(kind, last), kind.width());
        lemma_parsed_push(kind, payload(kind, front), chunk);
        lemma_value_of_pattern(kind, last);
        lemma_be_value_of_bytes(pattern(kind, last), kind.width());
        assert(front.push(last) =~= values);
    } else {
        assert(parsed(kind, payload(kind, values)) =~= values);
    }
}

/// Writing the elements that a payload holds gives the same payload, where
/// the payload ends on an element boundary and the kind is not the boolean.
pub proof fn lemma_payload_parsed(kind: Kind, bytes: Seq<u8>)
    requires
        kind != Kind::Bool,
        bytes.len() % kind.width() == 0,
    ensures
        kind.holds_all(parsed(kind, bytes)),
        payload(kind, parsed(kind, bytes)) == bytes,
    decreases bytes.len(),
{
    let w = kind.width();
    if bytes.len() >= w {
        let split = bytes.len() - w;
        let front = bytes.take(split);
        let chunk = bytes.skip(split);
        assert(front.len() % w == 0) by {
            vstd::arithmetic::div_mod::lemma_mod_sub_multiples_vanish(bytes.len() as int, w as int);
        }
        lemma_payload_parsed(kind, front);
        lemma_be_value_bound(chunk);
        lemma_pattern_of_value(kind, be_value(chunk));
        lemma_be_bytes_of_value(chunk);
        lemma_payload_push(kind, parsed(kind, front), value_of(kind, be_value(chunk)));
        assert(front + chunk =~= bytes);
    } else {
        vstd::arithmetic::div_mod::lemma_small_mod(bytes.len(), w);
        assert(payload(kind, parsed(kind, bytes)) =~= bytes);
    }
}

} // verus!
