//! Putting a record together from its fields, which may come in any order
//! and must each come exactly once.

use serde_bytes::ByteBuf;
use vstd::prelude::*;

use crate::buffer::buffer_bytes;
use crate::error::CodecError;
use crate::field::Field;
use crate::kind::Kind;
use crate::record::{Record, RecordView};

verus! {

/// One field of a record, with its value.
#[derive(Debug, PartialEq, Eq)]
pub enum FieldValue {
    Kind(Kind),
    Size(Vec<i64>),
    Data(ByteBuf),
}

/// One field of a record with its value, as a mathematical value.
pub enum Entry {
    Kind(Kind),
    Size(Seq<i64>),
    Data(Seq<u8>),
}

impl Entry {
    /// The field that this is a value of.
    pub open spec fn field(self) -> Field {
        match self {
            Entry::Kind(_) => Field::Kind,
            Entry::Size(_) => Field::Size,
            Entry::Data(_) => Field::Data,
        }
    }
}

impl View for FieldValue {
    type V = Entry;

    open spec fn view(&self) -> Entry {
        match *self {
            FieldValue::Kind(kind) => Entry::Kind(kind),
            FieldValue::Size(size) => Entry::Size(size@),
            FieldValue::Data(data) => Entry::Data(buffer_bytes(data)),
        }
    }
}

/// The entries that a run of field values stands for.
pub open spec fn entries_of(values: Seq<FieldValue>) -> Seq<Entry> {
    Seq::new(values.len(), |i: int| values[i]@)
}

/// The fields of a record that have come so far, as a mathematical value.
pub struct Slots {
    pub kind: Option<Kind>,
    pub size: Option<Seq<i64>>,
    pub data: Option<Seq<u8>>,
}

impl Slots {
    /// No field has come.
    pub open spec fn empty() -> Slots {
        Slots { kind: None, size: None, data: None }
    }

    /// What has come for a field, if anything.
    pub open spec fn get(self, field: Field) -> Option<Entry> {
        match field {
            Field::Kind => match self.kind {
                Some(kind) => Some(Entry::Kind(kind)),
                None => None,
            },
            Field::Size => match self.size {
                Some(size) => Some(Entry::Size(size)),
                None => None,
            },
            Field::Data => match self.data {
                Some(data) => Some(Entry::Data(data)),
                None => None,
            },
        }
    }

    /// Whether a field has come.
    pub open spec fn has(self, field: Field) -> bool {
        self.get(field) is Some
    }

    /// One more entry comes: it is kept, or it is a duplicate where its
    /// field has come before.
    pub open spec fn put(self, entry: Entry) -> Result<Slots, CodecError> {
        if self.has(entry.field()) {
            Err(CodecError::DuplicateField(entry.field()))
        } else {
            Ok(
                match entry {
                    Entry::Kind(kind) => Slots { kind: Some(kind), ..self },
                    Entry::Size(size) => Slots { size: Some(size), ..self },
                    Entry::Data(data) => Slots { data: Some(data), ..self },
                },
            )
        }
    }

    /// A run of entries comes, one after the other, up to the first
    /// duplicate.
    pub open spec fn put_all(self, entries: Seq<Entry>) -> Result<Slots, CodecError>
        decreases entries.len(),
    {
        if entries.len() == 0 {
            Ok(self)
        } else {
            match self.put(entries.first()) {
                Ok(next) => next.put_all(entries.drop_first()),
                Err(e) => Err(e),
            }
        }
    }

    /// No more entries come: the record of the three fields, or the first
    /// of kind, size and data that is missing.
    pub open spec fn finish(self) -> Result<RecordView, CodecError> {
        match (self.kind, self.size, self.data) {
            (Some(kind), Some(size), Some(data)) => Ok(RecordView { kind, size, data }),
            (None, _, _) => Err(CodecError::MissingField(Field::Kind)),
            (_, None, _) => Err(CodecError::MissingField(Field::Size)),
            _ => Err(CodecError::MissingField(Field::Data)),
        }
    }
}

/// What a run of entries makes: the record of the three fields; or
/// `DuplicateField` with the first field that comes a second time, else
/// `MissingField` with the first of kind, size and data that does not come.
pub open spec fn assembled(entries: Seq<Entry>) -> Result<RecordView, CodecError> {
    match Slots::empty().put_all(entries) {
        Ok(slots) => slots.finish(),
        Err(e) => Err(e),
    }
}

/// Whether no two of the entries are values of the same field.
pub open spec fn distinct(entries: Seq<Entry>) -> bool {
    forall|i: int, j: int|
        0 <= i < j < entries.len() ==> (#[trigger] entries[i]).field() != (
        #[trigger] entries[j]).field()
}

/// Whether one of the entries is a value of a field.
pub open spec fn occurs(entries: Seq<Entry>, field: Field) -> bool {
    exists|i: int| 0 <= i < entries.len() && (#[trigger] entries[i]).field() == field
}

impl RecordView {
    /// The value that the record has for a field.
    pub open spec fn get(self, field: Field) -> Entry {
        match field {
            Field::Kind => Entry::Kind(self.kind),
            Field::Size => Entry::Size(self.size),
            Field::Data => Entry::Data(self.data),
        }
    }
}

/// Whether the entry at `at` is the first whose field has come before it,
/// be it in `slots` or among the entries.
pub open spec fn first_repeat(slots: Slots, entries: Seq<Entry>, at: int) -> bool {
    &&& 0 <= at < entries.len()
    &&& slots.has(entries[at].field()) || occurs(entries.take(at), entries[at].field())
    &&& distinct(entries.take(at))
    &&& forall|i: int| 0 <= i < at ==> !slots.has((#[trigger] entries[i]).field())
}

/// Whether none of the entries is a value of a field that has come.
pub open spec fn fresh(slots: Slots, entries: Seq<Entry>) -> bool {
    forall|i: int| 0 <= i < entries.len() ==> !slots.has((#[trigger] entries[i]).field())
}

/// A field occurs among entries where it is the field of the first, or
/// occurs among the others.
proof fn lemma_occurs_first(entries: Seq<Entry>, field: Field)
    requires
        entries.len() > 0,
    ensures
        occurs(entries, field) <==> entries.first().field() == field || occurs(
            entries.drop_first(),
            field,
        ),
{
    let rest = entries.drop_first();
    if occurs(entries, field) {
        let k = choose|k: int| 0 <= k < entries.len() && (#[trigger] entries[k]).field() == field;
        if k > 0 {
            assert(rest[k - 1].field() == field);
        }
    }
    if occurs(rest, field) {
        let k = choose|k: int| 0 <= k < rest.len() && (#[trigger] rest[k]).field() == field;
        assert(entries[k + 1].field() == field);
    }
    if entries.first().field() == field {
        assert(entries[0].field() == field);
    }
}

/// No two entries are values of one field where that holds of all but the
/// first, and the field of the first does not occur among them.
proof fn lemma_distinct_first(entries: Seq<Entry>)
    requires
        entries.len() > 0,
    ensures
        distinct(entries) <==> distinct(entries.drop_first()) && !occurs(
            entries.drop_first(),
            entries.first().field(),
        ),
{
    let rest = entries.drop_first();
    if distinct(entries) {
        assert forall|i: int, j: int| 0 <= i < j < rest.len() implies (#[trigger] rest[i]).field()
            != (#[trigger] rest[j]).field() by {
            assert(entries[i + 1].field() != entries[j + 1].field());
        }
        if occurs(rest, entries.first().field()) {
            let k = choose|k: int|
                0 <= k < rest.len() && (#[trigger] rest[k]).field() == entries.first().field();
            assert(entries[0].field() != entries[k + 1].field());
        }
    }
    if distinct(rest) && !occurs(rest, entries.first().field()) {
        assert forall|i: int, j: int| 0 <= i < j < entries.len() implies (
        #[trigger] entries[i]).field() != (#[trigger] entries[j]).field() by {
            assert(rest[j - 1].field() == entries[j].field());
            if i > 0 {
                assert(rest[i - 1].field() != rest[j - 1].field());
            }
        }
    }
}

/// None of the entries is a value of a field that has come where that
/// holds of the first and of the others.
proof fn lemma_fresh_first(slots: Slots, entries: Seq<Entry>)
    requires
        entries.len() > 0,
    ensures
        fresh(slots, entries) <==> !slots.has(entries.first().field()) && fresh(
            slots,
            entries.drop_first(),
        ),
{
    let rest = entries.drop_first();
    if fresh(slots, entries) {
        assert(!slots.has(entries[0].field()));
        assert forall|i: int| 0 <= i < rest.len() implies !slots.has(
            (#[trigger] rest[i]).field(),
        ) by {
            assert(!slots.has(entries[i + 1].field()));
        }
    }
    if !slots.has(entries.first().field()) && fresh(slots, rest) {
        assert forall|i: int| 0 <= i < entries.len() implies !slots.has(
            (#[trigger] entries[i]).field(),
        ) by {
            if i > 0 {
                assert(!slots.has(rest[i - 1].field()));
            }
        }
    }
}

/// Entries that come after some fields are all kept exactly where no two
/// of them are values of one field and none is a value of a field that has
/// come.
pub proof fn lemma_put_all_ok(slots: Slots, entries: Seq<Entry>)
    ensures
        slots.put_all(entries) is Ok <==> distinct(entries) && fresh(slots, entries),
    decreases entries.len(),
{
    if entries.len() > 0 {
        let head = entries.first();
        let rest = entries.drop_first();
        lemma_distinct_first(entries);
        lemma_fresh_first(slots, entries);
        if !slots.has(head.field()) {
            let next = slots.put(head)->Ok_0;
            lemma_put_all_ok(next, rest);
            assert(fresh(next, rest) <==> fresh(slots, rest) && !occurs(rest, head.field())) by {
                if fresh(next, rest) {
                    assert forall|i: int| 0 <= i < rest.len() implies !slots.has(
                        (#[trigger] rest[i]).field(),
                    ) by {
                        assert(!next.has(rest[i].field()));
                    }
                    if occurs(rest, head.field()) {
                        let k = choose|k: int|
                            0 <= k < rest.len() && (#[trigger] rest[k]).field() == head.field();
                        assert(!next.has(rest[k].field()));
                    }
                }
                if fresh(slots, rest) && !occurs(rest, head.field()) {
                    assert forall|i: int| 0 <= i < rest.len() implies !next.has(
                        (#[trigger] rest[i]).field(),
                    ) by {
                        assert(!slots.has(rest[i].field()));
                    }
                }
            }
        }
    }
}

/// Where entries that come after some fields are all kept, each field
/// holds the entry that came for it, and the other fields hold what they
/// held.
pub proof fn lemma_put_all_kept(slots: Slots, entries: Seq<Entry>)
    requires
        slots.put_all(entries) is Ok,
    ensures
        forall|i: int|
            0 <= i < entries.len() ==> (slots.put_all(entries)->Ok_0).get(
                (#[trigger] entries[i]).field(),
            ) == Some(entries[i]),
        forall|field: Field|
            !occurs(entries, field) ==> #[trigger] (slots.put_all(entries)->Ok_0).get(field)
                == slots.get(field),
    decreases entries.len(),
{
    if entries.len() > 0 {
        let head = entries.first();
        let rest = entries.drop_first();
        let next = slots.put(head)->Ok_0;
        let kept = slots.put_all(entries)->Ok_0;
        lemma_put_all_kept(next, rest);
        lemma_put_all_ok(next, rest);
        assert(!occurs(rest, head.field())) by {
            if occurs(rest, head.field()) {
                let k = choose|k: int|
                    0 <= k < rest.len() && (#[trigger] rest[k]).field() == head.field();
                assert(!next.has(rest[k].field()));
            }
        }
        assert forall|i: int| 0 <= i < entries.len() implies kept.get(
            (#[trigger] entries[i]).field(),
        ) == Some(entries[i]) by {
            if i > 0 {
                assert(kept.get(rest[i - 1].field()) == Some(rest[i - 1]));
            } else {
                assert(kept.get(head.field()) == next.get(head.field()));
            }
        }
        assert forall|field: Field| !occurs(entries, field) implies #[trigger] kept.get(field)
            == slots.get(field) by {
            lemma_occurs_first(entries, field);
            assert(kept.get(field) == next.get(field));
        }
    }
}

/// Where not all entries that come after some fields are kept, the
/// duplicate is the field of the first entry whose field has come before
/// it.
pub proof fn lemma_put_all_duplicate(slots: Slots, entries: Seq<Entry>)
    requires
        slots.put_all(entries) is Err,
    ensures
        exists|at: int| #[trigger]
            first_repeat(slots, entries, at) && slots.put_all(entries)
                == Err::<Slots, CodecError>(CodecError::DuplicateField(entries[at].field())),
    decreases entries.len(),
{
    let head = entries.first();
    let rest = entries.drop_first();
    if slots.has(head.field()) {
        assert(first_repeat(slots, entries, 0));
    } else {
        let next = slots.put(head)->Ok_0;
        lemma_put_all_duplicate(next, rest);
        let at = choose|at: int| #[trigger]
            first_repeat(next, rest, at) && next.put_all(rest) == Err::<Slots, CodecError>(
                CodecError::DuplicateField(rest[at].field()),
            );
        let found = at + 1;
        let front = entries.take(found);
        assert(front.drop_first() =~= rest.take(at));
        assert(front.first() == head);
        lemma_distinct_first(front);
        lemma_fresh_first(slots, front);
        lemma_occurs_first(front, entries[found].field());
        assert(fresh(next, rest.take(at))) by {
            assert forall|i: int| 0 <= i < at implies !next.has(
                (#[trigger] rest.take(at)[i]).field(),
            ) by {
                assert(!next.has(rest[i].field()));
            }
        }
        assert(fresh(slots, rest.take(at)) && !occurs(rest.take(at), head.field())) by {
            assert forall|i: int| 0 <= i < at implies !slots.has(
                (#[trigger] rest.take(at)[i]).field(),
            ) by {
                assert(!next.has(rest.take(at)[i].field()));
            }
            if occurs(rest.take(at), head.field()) {
                let k = choose|k: int|
                    0 <= k < rest.take(at).len() && (#[trigger] rest.take(at)[k]).field()
                        == head.field();
                assert(!next.has(rest.take(at)[k].field()));
            }
        }
        assert forall|i: int| 0 <= i < found implies !slots.has(
            (#[trigger] entries[i]).field(),
        ) by {
            assert(!slots.has(front[i].field()));
        }
        assert(first_repeat(slots, entries, found));
    }
}

/// Entries make a record exactly where no two of them are values of one
/// field and each of the three fields comes. The record then holds, for
/// each field, the entry that came for it, in whatever order they came.
/// Otherwise the error is the duplicate, with the field of the first entry
/// whose field has come before it; or, where there is none, the first of
/// kind, size and data that does not come.
pub proof fn lemma_assembled(entries: Seq<Entry>)
    ensures
        assembled(entries) is Ok <==> distinct(entries) && occurs(entries, Field::Kind) && occurs(
            entries,
            Field::Size,
        ) && occurs(entries, Field::Data),
        assembled(entries) matches Ok(made) ==> forall|i: int|
            0 <= i < entries.len() ==> made.get((#[trigger] entries[i]).field()) == entries[i],
        !distinct(entries) ==> exists|at: int|
            #[trigger] first_repeat(Slots::empty(), entries, at) && assembled(entries) == Err::<
                RecordView,
                CodecError,
            >(CodecError::DuplicateField(entries[at].field())),
        distinct(entries) && !occurs(entries, Field::Kind) ==> assembled(entries) == Err::<
            RecordView,
            CodecError,
        >(CodecError::MissingField(Field::Kind)),
        distinct(entries) && occurs(entries, Field::Kind) && !occurs(entries, Field::Size)
            ==> assembled(entries) == Err::<RecordView, CodecError>(
            CodecError::MissingField(Field::Size),
        ),
        distinct(entries) && occurs(entries, Field::Kind) && occurs(entries, Field::Size)
            && !occurs(entries, Field::Data) ==> assembled(entries) == Err::<
            RecordView,
            CodecError,
        >(CodecError::MissingField(Field::Data)),
{
    let start = Slots::empty();
    lemma_put_all_ok(start, entries);
    assert(fresh(start, entries));
    match start.put_all(entries) {
        Ok(kept) => {
            lemma_put_all_kept(start, entries);
            lemma_occurs_kept(entries, kept, Field::Kind);
            lemma_occurs_kept(entries, kept, Field::Size);
            lemma_occurs_kept(entries, kept, Field::Data);
            if let Ok(made) = assembled(entries) {
                assert forall|i: int| 0 <= i < entries.len() implies made.get(
                    (#[trigger] entries[i]).field(),
                ) == entries[i] by {
                    assert(kept.get(entries[i].field()) == Some(entries[i]));
                }
            }
        },
        Err(e) => {
            lemma_put_all_duplicate(start, entries);
        },
    }
}

/// Where each entry is held under its field, and the other fields hold
/// nothing, a field holds something exactly where it occurs.
proof fn lemma_occurs_kept(entries: Seq<Entry>, kept: Slots, field: Field)
    requires
        forall|i: int|
            0 <= i < entries.len() ==> kept.get((#[trigger] entries[i]).field()) == Some(
                entries[i],
            ),
        !occurs(entries, field) ==> kept.get(field) is None,
    ensures
        kept.has(field) <==> occurs(entries, field),
{
    if occurs(entries, field) {
        let k = choose|k: int| 0 <= k < entries.len() && (#[trigger] entries[k]).field() == field;
        assert(kept.get(entries[k].field()) == Some(entries[k]));
    }
}

/// The three fields of a record make that record, in whatever order they
/// come.
pub proof fn lemma_assembled_any_order(
    entries: Seq<Entry>,
    kind: Kind,
    size: Seq<i64>,
    data: Seq<u8>,
)
    requires
        entries.len() == 3,
        entries.contains(Entry::Kind(kind)),
        entries.contains(Entry::Size(size)),
        entries.contains(Entry::Data(data)),
    ensures
        assembled(entries) == Ok::<RecordView, CodecError>((RecordView { kind, size, data })),
{
    let k = choose|i: int| 0 <= i < entries.len() && entries[i] == Entry::Kind(kind);
    let s = choose|i: int| 0 <= i < entries.len() && entries[i] == Entry::Size(size);
    let d = choose|i: int| 0 <= i < entries.len() && entries[i] == Entry::Data(data);
    assert(entries[k].field() == Field::Kind);
    assert(entries[s].field() == Field::Size);
    assert(entries[d].field() == Field::Data);
    assert(distinct(entries));
    lemma_assembled(entries);
    let made = assembled(entries)->Ok_0;
    assert(made.get(entries[k].field()) == entries[k]);
    assert(made.get(entries[s].field()) == entries[s]);
    assert(made.get(entries[d].field()) == entries[d]);
}

/// The fields of a record that have come so far.
pub struct RecordBuilder {
    kind: Option<Kind>,
    size: Option<Vec<i64>>,
    data: Option<ByteBuf>,
}

impl View for RecordBuilder {
    type V = Slots;

    closed spec fn view(&self) -> Slots {
        Slots {
            kind: self.kind,
            size: match self.size {
                Some(size) => Some(size@),
                None => None,
            },
            data: match self.data {
                Some(data) => Some(buffer_bytes(data)),
                None => None,
            },
        }
    }
}

impl FieldValue {
    /// Returns the field that this is a value of.
    pub fn field(&self) -> (field: Field)
        ensures
            field == self@.field(),
    {
        match self {
            FieldValue::Kind(_) => Field::Kind,
            FieldValue::Size(_) => Field::Size,
            FieldValue::Data(_) => Field::Data,
        }
    }
}

impl RecordBuilder {
    /// Starts a record of which no field has come.
    pub fn new() -> (builder: RecordBuilder)
        ensures
            builder@ == Slots::empty(),
    {
        RecordBuilder { kind: None, size: None, data: None }
    }

    /// Returns whether a field has come.
    pub fn has(&self, field: Field) -> (has: bool)
        ensures
            has == self@.has(field),
    {
        match field {
            Field::Kind => self.kind.is_some(),
            Field::Size => self.size.is_some(),
            Field::Data => self.data.is_some(),
        }
    }

    /// Tells whether a value of a field may come next: fails with
    /// `DuplicateField` where the field has come before.
    pub fn expect(&self, field: Field) -> (free: Result<(), CodecError>)
        ensures
            free == if self@.has(field) {
                Err::<(), CodecError>(CodecError::DuplicateField(field))
            } else {
                Ok::<(), CodecError>(())
            },
    {
        if self.has(field) {
            Err(CodecError::DuplicateField(field))
        } else {
            Ok(())
        }
    }

    /// Takes one more field with its value, or fails with `DuplicateField`
    /// where the field has come before, and then keeps what it has.
    pub fn put(&mut self, value: FieldValue) -> (kept: Result<(), CodecError>)
        ensures
            match old(self)@.put(value@) {
                Ok(next) => kept == Ok::<(), CodecError>(()) && final(self)@ == next,
                Err(e) => kept == Err::<(), CodecError>(e) && final(self)@ == old(self)@,
            },
    {
        if self.has(value.field()) {
            return Err(CodecError::DuplicateField(value.field()));
        }
        match value {
            FieldValue::Kind(kind) => {
                self.kind = Some(kind);
            },
            FieldValue::Size(size) => {
                self.size = Some(size);
            },
            FieldValue::Data(data) => {
                self.data = Some(data);
            },
        }
        Ok(())
    }

    /// Ends the record: gives the record of the three fields, or fails with
    /// `MissingField` with the first of kind, size and data that has not
    /// come.
    pub fn finish(self) -> (record: Result<Record, CodecError>)
        ensures
            match self@.finish() {
                Ok(made) => record is Ok && record->Ok_0@ == made,
                Err(e) => record == Err::<Record, CodecError>(e),
            },
    {
        let RecordBuilder { kind, size, data } = self;
        let kind = match kind {
            Some(kind) => kind,
            None => {
                return Err(CodecError::MissingField(Field::Kind));
            },
        };
        let size = match size {
            Some(size) => size,
            None => {
                return Err(CodecError::MissingField(Field::Size));
            },
        };
        let data = match data {
            Some(data) => data,
            None => {
                return Err(CodecError::MissingField(Field::Data));
            },
        };
        Ok(Record { kind, size, data })
    }
}

impl Record {
    /// Makes a record from its fields, in whatever order they come; fails
    /// with `DuplicateField` with the first field that comes a second time,
    /// else with `MissingField` with the first of kind, size and data that
    /// does not come.
    pub fn from_entries(entries: Vec<FieldValue>) -> (record: Result<Record, CodecError>)
        ensures
            match assembled(entries_of(entries@)) {
                Ok(made) => record is Ok && record->Ok_0@ == made,
                Err(e) => record == Err::<Record, CodecError>(e),
            },
    {
        let ghost all = entries_of(entries@);
        let mut builder = RecordBuilder::new();
        assert(all.skip(0) =~= all);
        for value in iter: entries
            invariant
                all == entries_of(iter.seq()),
                Slots::empty().put_all(all) == builder@.put_all(all.skip(iter.index() as int)),
        {
            proof {
                let rest = all.skip(iter.index() as int);
                assert(rest.first() == value@);
                assert(rest.drop_first() =~= all.skip(iter.index() + 1));
            }
            match builder.put(value) {
                Ok(()) => {},
                Err(e) => {
                    return Err(e);
                },
            }
        }
        builder.finish()
    }
}

} // verus!
