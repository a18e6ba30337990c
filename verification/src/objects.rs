//! Whole objects, each a tag and its payload words, written to a finished
//! buffer and read back from one.

use crate::type_buffer::{
    entry_at, lemma_finished_layout, CapacityError, Contents, HeaderEntry, TypeBuffer,
    MAX_DATA_WORDS, MAX_OFFSET,
};
use vstd::prelude::*;

verus! {

/// An object as a buffer holds it: the tag of its kind and its payload.
pub struct Object {
    pub tag: u8,
    pub payload: Seq<u32>,
}

/// An object to encode, or one that was decoded.
#[derive(Clone, Debug, PartialEq, Eq)]
pub struct TaggedObject {
    pub tag: u8,
    pub payload: Vec<u32>,
}

impl View for TaggedObject {
    type V = Object;

    open spec fn view(&self) -> Object {
        Object { tag: self.tag, payload: self.payload@ }
    }
}

/// The objects of a vector, each by its view.
pub open spec fn object_views(objects: Seq<TaggedObject>) -> Seq<Object> {
    Seq::new(objects.len(), |i: int| objects[i]@)
}

/// Number of payload words that lie before object `index`.
pub open spec fn payload_start(objects: Seq<Object>, index: int) -> int
    decreases index,
{
    if index <= 0 {
        0
    } else {
        payload_start(objects, index - 1) + objects[index - 1].payload.len()
    }
}

/// Number of payload words of all objects together.
pub open spec fn total_words(objects: Seq<Object>) -> int {
    payload_start(objects, objects.len() as int)
}

/// What a buffer holds after the objects were written to it in order.
pub open spec fn contents_of(objects: Seq<Object>) -> Contents
    decreases objects.len(),
{
    if objects.len() == 0 {
        Contents::empty()
    } else {
        contents_of(objects.drop_last()).with_payload(objects.last().tag, objects.last().payload)
    }
}

/// The objects can be encoded: their payload is within the limit, and the
/// offset of the last one still fits in 24 bits once moved past the count and
/// the header table.
pub open spec fn encodable(objects: Seq<Object>) -> bool {
    &&& total_words(objects) <= MAX_DATA_WORDS
    &&& objects.len() > 0 ==> payload_start(objects, objects.len() - 1) + objects.len() + 1
        <= MAX_OFFSET
}

/// Where an object's payload begins depends on the objects before it alone.
pub proof fn lemma_payload_start_prefix(a: Seq<Object>, b: Seq<Object>, index: int)
    requires
        forall|j: int| 0 <= j < index ==> a[j] == b[j],
    ensures
        payload_start(a, index) == payload_start(b, index),
    decreases index,
{
    if index > 0 {
        lemma_payload_start_prefix(a, b, index - 1);
    }
}

/// Payloads lie one after another: a later object never begins before an
/// earlier one.
pub proof fn lemma_payload_start_monotone(objects: Seq<Object>, i: int, j: int)
    requires
        0 <= i <= j,
    ensures
        0 <= payload_start(objects, i) <= payload_start(objects, j),
    decreases j,
{
    if j > i {
        lemma_payload_start_monotone(objects, i, j - 1);
    } else if i > 0 {
        lemma_payload_start_monotone(objects, i - 1, i - 1);
    }
}

/// The buffer written from a sequence of objects has one entry for each and
/// holds their payload words, no more.
pub proof fn lemma_contents_lengths(objects: Seq<Object>)
    ensures
        contents_of(objects).header.len() == objects.len(),
        contents_of(objects).data.len() == total_words(objects),
    decreases objects.len(),
{
    if objects.len() > 0 {
        let front = objects.drop_last();
        lemma_contents_lengths(front);
        lemma_payload_start_prefix(front, objects, front.len() as int);
    }
}

/// The buffer written from a sequence of objects, entry by entry and word by
/// word: entry `i` carries the tag of object `i` and the number of payload
/// words before it, and the payload of object `i` stands from there on.
pub proof fn lemma_contents_of(objects: Seq<Object>)
    requires
        total_words(objects) <= MAX_DATA_WORDS,
    ensures
        contents_of(objects).header.len() == objects.len(),
        contents_of(objects).data.len() == total_words(objects),
        forall|i: int|
            0 <= i < objects.len() ==> {
                &&& (#[trigger] contents_of(objects).header[i]).tag == objects[i].tag
                &&& contents_of(objects).header[i].offset == payload_start(objects, i)
            },
        forall|i: int, k: int|
            0 <= i < objects.len() && 0 <= k < objects[i].payload.len() ==> contents_of(
                objects,
            ).data[payload_start(objects, i) + k] == #[trigger] objects[i].payload[k],
    decreases objects.len(),
{
    lemma_contents_lengths(objects);
    if objects.len() > 0 {
        let front = objects.drop_last();
        let n = front.len() as int;
        let last = objects.last();
        lemma_payload_start_prefix(front, objects, n);
        lemma_payload_start_monotone(objects, n, n + 1);
        lemma_contents_of(front);
        let before = contents_of(front);
        let after = contents_of(objects);
        assert(after == before.with_payload(last.tag, last.payload));
        assert forall|i: int| 0 <= i < objects.len() implies {
            &&& (#[trigger] after.header[i]).tag == objects[i].tag
            &&& after.header[i].offset == payload_start(objects, i)
        } by {
            if i < n {
                assert(after.header[i] == before.header[i]);
                assert(front[i] == objects[i]);
                lemma_payload_start_prefix(front, objects, i);
            }
        }
        assert forall|i: int, k: int|
            0 <= i < objects.len() && 0 <= k < objects[i].payload.len() implies after.data[payload_start(
            objects,
            i,
        ) + k] == #[trigger] objects[i].payload[k] by {
            lemma_payload_start_monotone(objects, i, i);
            if i < n {
                assert(front[i] == objects[i]);
                lemma_payload_start_prefix(front, objects, i);
                lemma_payload_start_monotone(front, i + 1, n);
                assert(payload_start(front, i + 1) == payload_start(front, i)
                    + front[i].payload.len());
                assert(before.data[payload_start(front, i) + k] == front[i].payload[k]);
            } else {
                assert(payload_start(objects, i) == before.data.len());
            }
        }
    }
}

/// A buffer written from encodable objects can be finished.
pub proof fn lemma_encodable_relocatable(objects: Seq<Object>)
    requires
        total_words(objects) <= MAX_DATA_WORDS,
    ensures
        contents_of(objects).relocatable() <==> (objects.len() > 0 ==> payload_start(
            objects,
            objects.len() - 1,
        ) + objects.len() + 1 <= MAX_OFFSET),
{
    lemma_contents_of(objects);
    let contents = contents_of(objects);
    let n = objects.len() as int;
    if n > 0 {
        if payload_start(objects, n - 1) + n + 1 <= MAX_OFFSET {
            assert forall|i: int| 0 <= i < contents.header.len() implies (
            #[trigger] contents.header[i]).offset + contents.shift() <= MAX_OFFSET by {
                lemma_payload_start_monotone(objects, i, n - 1);
            }
        }
        if contents.relocatable() {
            assert(contents.header[n - 1].offset + contents.shift() <= MAX_OFFSET);
        }
    }
}

/// Writing one more object extends what the buffer holds by that object.
pub proof fn lemma_contents_step(objects: Seq<Object>, written: int)
    requires
        0 <= written < objects.len(),
    ensures
        contents_of(objects.take(written + 1)) == contents_of(objects.take(written)).with_payload(
            objects[written].tag,
            objects[written].payload,
        ),
{
    assert(objects.take(written + 1).drop_last() =~= objects.take(written));
    assert(objects.take(written + 1).last() == objects[written]);
}

/// Where the buffer has no room for the next object, the whole sequence
/// cannot be encoded.
pub proof fn lemma_no_room(objects: Seq<Object>, written: int)
    requires
        0 <= written < objects.len(),
        !contents_of(objects.take(written)).takes(objects[written].payload.len()),
    ensures
        !encodable(objects),
{
    lemma_contents_lengths(objects.take(written));
    lemma_payload_start_prefix(objects.take(written), objects, written);
    lemma_payload_start_monotone(objects, written, objects.len() - 1);
    lemma_payload_start_monotone(objects, written + 1, objects.len() as int);
}

/// Once every object is written and the payload is within its limit, the
/// buffer can be finished exactly when the sequence can be encoded.
pub proof fn lemma_all_written(objects: Seq<Object>)
    requires
        contents_of(objects).data.len() <= MAX_DATA_WORDS,
    ensures
        contents_of(objects).relocatable() <==> encodable(objects),
{
    lemma_contents_lengths(objects);
    lemma_encodable_relocatable(objects);
}

/// The limit of the payload: objects with more than 2^24 payload words
/// cannot be encoded, however they are cut; a single object can be encoded
/// with any number of words up to exactly that many.
pub proof fn lemma_capacity_boundary(objects: Seq<Object>)
    ensures
        total_words(objects) > MAX_DATA_WORDS ==> !encodable(objects),
        objects.len() == 1 ==> (encodable(objects) <==> objects[0].payload.len()
            <= MAX_DATA_WORDS),
{
    if objects.len() == 1 {
        assert(payload_start(objects, 0) == 0);
        assert(payload_start(objects, 1) == payload_start(objects, 0)
            + objects[0].payload.len());
    }
}

/// Encodes the objects in order into one finished buffer. Refused when they
/// do not fit.
pub fn encode_objects(objects: &Vec<TaggedObject>) -> (result: Result<Vec<u32>, CapacityError>)
    ensures
        result.is_ok() <==> encodable(object_views(objects@)),
        result matches Ok(words) ==> words@ == contents_of(object_views(objects@)).words(),
{
    let ghost all = object_views(objects@);
    let mut buffer = TypeBuffer::new();
    let mut i: usize = 0;
    assert(all.take(0).len() == 0);
    while i < objects.len()
        invariant
            i <= objects.len(),
            all == object_views(objects@),
            buffer@ == contents_of(all.take(i as int)),
            buffer@.data.len() <= MAX_DATA_WORDS,
        decreases objects.len() - i,
    {
        let object = &objects[i];
        proof {
            lemma_contents_lengths(all.take(i as int));
            lemma_payload_start_prefix(all.take(i as int), all, i as int);
            lemma_payload_start_monotone(all, i as int, all.len() - 1);
            lemma_payload_start_monotone(all, i + 1, all.len() as int);
            assert(all[i as int] == object@);
        }
        if !buffer.has_room(object.payload.len()) {
            return Err(CapacityError);
        }
        match buffer.push_object(object.tag) {
            Ok(()) => {},
            Err(e) => {
                return Err(e);
            },
        }
        match buffer.push_words(&object.payload) {
            Ok(()) => {},
            Err(e) => {
                return Err(e);
            },
        }
        proof {
            assert(all.take(i + 1).drop_last() =~= all.take(i as int));
            assert(all.take(i + 1).last() == object@);
        }
        i += 1;
    }
    proof {
        assert(all.take(i as int) =~= all);
        lemma_contents_lengths(all);
        lemma_encodable_relocatable(all);
    }
    buffer.finish()
}

/// In the buffer encoded from a sequence of objects, header slot `i` holds
/// the tag of object `i` and points to its payload, which stands there word
/// for word and inside the buffer.
pub proof fn lemma_encoded_object(objects: Seq<Object>, i: int)
    requires
        encodable(objects),
        0 <= i < objects.len(),
    ensures
        contents_of(objects).words()[0] == objects.len(),
        i + 1 < contents_of(objects).words().len(),
        entry_at(contents_of(objects).words(), i).tag == objects[i].tag,
        entry_at(contents_of(objects).words(), i).offset == payload_start(objects, i)
            + objects.len() + 1,
        entry_at(contents_of(objects).words(), i).offset + objects[i].payload.len()
            <= contents_of(objects).words().len(),
        forall|k: int|
            0 <= k < objects[i].payload.len() ==> contents_of(objects).words()[entry_at(
                contents_of(objects).words(),
                i,
            ).offset + k] == #[trigger] objects[i].payload[k],
{
    let contents = contents_of(objects);
    let words = contents.words();
    let n = objects.len() as int;
    let start = payload_start(objects, i);
    lemma_contents_of(objects);
    lemma_encodable_relocatable(objects);
    lemma_finished_layout(contents);
    lemma_payload_start_monotone(objects, i, i + 1);
    lemma_payload_start_monotone(objects, i + 1, n);
    assert(contents.header[i].offset == start);
    assert forall|k: int| 0 <= k < objects[i].payload.len() implies words[start + n + 1 + k]
        == #[trigger] objects[i].payload[k] by {
        assert(contents.data[start + k] == objects[i].payload[k]);
        assert(words[1 + n + (start + k)] == contents.data[start + k]);
    }
}

/// Where the payload of object `index` begins in a finished buffer.
pub open spec fn object_start(words: Seq<u32>, index: int) -> int {
    entry_at(words, index).offset as int
}

/// Where the payload of object `index` ends in a finished buffer: where the
/// next object begins, or with the buffer for the last one.
pub open spec fn object_end(words: Seq<u32>, index: int) -> int {
    if index + 1 < words[0] {
        object_start(words, index + 1)
    } else {
        words.len() as int
    }
}

/// The words are a finished buffer: the count and the header table are there,
/// and the payloads lie behind the table, in order and inside the buffer.
pub open spec fn decodable(words: Seq<u32>) -> bool {
    &&& words.len() > 0
    &&& 1 + words[0] <= words.len()
    &&& forall|i: int|
        0 <= i < words[0] ==> 1 + words[0] <= #[trigger] object_start(words, i) <= object_end(
            words,
            i,
        ) <= words.len()
}

/// Object `index` of a finished buffer.
pub open spec fn decoded_object(words: Seq<u32>, index: int) -> Object {
    Object {
        tag: entry_at(words, index).tag,
        payload: words.subrange(object_start(words, index), object_end(words, index)),
    }
}

/// The objects of a finished buffer, in order.
pub open spec fn decoded(words: Seq<u32>) -> Seq<Object> {
    Seq::new(words[0] as nat, |i: int| decoded_object(words, i))
}

/// The entry in header slot `index` of a finished buffer, if the buffer
/// reaches that far.
pub fn read_entry(words: &Vec<u32>, index: usize) -> (entry: Option<HeaderEntry>)
    ensures
        entry.is_some() <==> index + 1 < words@.len(),
        entry matches Some(e) ==> e == entry_at(words@, index as int) && e.offset <= MAX_OFFSET,
{
    if index < words.len() && index + 1 < words.len() {
        Some(HeaderEntry::unpack(words[index + 1]))
    } else {
        None
    }
}

/// A copy of the words from `start` up to `end`.
fn copy_range(words: &Vec<u32>, start: usize, end: usize) -> (copy: Vec<u32>)
    requires
        start <= end <= words@.len(),
    ensures
        copy@ == words@.subrange(start as int, end as int),
{
    let mut copy: Vec<u32> = Vec::new();
    let mut k: usize = start;
    while k < end
        invariant
            start <= k <= end <= words@.len(),
            copy@ == words@.subrange(start as int, k as int),
        decreases end - k,
    {
        copy.push(words[k]);
        assert(words@.subrange(start as int, k as int).push(words@[k as int])
            =~= words@.subrange(start as int, k + 1));
        k += 1;
    }
    copy
}

/// Reads the objects of a finished buffer: for each header entry its tag and
/// the words from its offset up to the next object. Nothing is returned when
/// the words are no finished buffer.
pub fn decode_objects(words: &Vec<u32>) -> (result: Option<Vec<TaggedObject>>)
    ensures
        result.is_some() <==> decodable(words@),
        result matches Some(objects) ==> object_views(objects@) == decoded(words@),
{
    let len = words.len();
    if len == 0 {
        return None;
    }
    let count = words[0] as usize;
    if count > len - 1 {
        return None;
    }
    let mut objects: Vec<TaggedObject> = Vec::new();
    let mut i: usize = 0;
    while i < count
        invariant
            i <= count,
            len == words@.len(),
            count == words@[0],
            1 + count <= len,
            objects@.len() == i,
            forall|k: int|
                0 <= k < i ==> 1 + words@[0] <= #[trigger] object_start(words@, k) <= object_end(
                    words@,
                    k,
                ) <= len,
            forall|k: int| 0 <= k < i ==> (#[trigger] objects@[k])@ == decoded_object(words@, k),
        decreases count - i,
    {
        let entry = HeaderEntry::unpack(words[i + 1]);
        let start = entry.offset as usize;
        let end = if i + 1 < count {
            HeaderEntry::unpack(words[i + 2]).offset as usize
        } else {
            len
        };
        assert(start == object_start(words@, i as int));
        assert(end == object_end(words@, i as int));
        if start < 1 + count || end < start || end > len {
            return None;
        }
        let payload = copy_range(words, start, end);
        objects.push(TaggedObject { tag: entry.tag, payload });
        i += 1;
    }
    assert(object_views(objects@) =~= decoded(words@));
    Some(objects)
}

/// Encoding a sequence of objects and decoding the result gives back the
/// sequence: every tag, and every payload word for word.
pub proof fn lemma_decode_encode(objects: Seq<Object>)
    requires
        encodable(objects),
    ensures
        decodable(contents_of(objects).words()),
        decoded(contents_of(objects).words()) == objects,
{
    let contents = contents_of(objects);
    let words = contents.words();
    let n = objects.len() as int;
    lemma_contents_of(objects);
    lemma_encodable_relocatable(objects);
    lemma_finished_layout(contents);
    assert forall|i: int| 0 <= i < n implies {
        &&& #[trigger] object_start(words, i) == payload_start(objects, i) + n + 1
        &&& object_end(words, i) == payload_start(objects, i + 1) + n + 1
        &&& 1 + n <= object_start(words, i) <= object_end(words, i) <= words.len()
    } by {
        assert(contents.header[i].offset == payload_start(objects, i));
        lemma_payload_start_monotone(objects, i, i + 1);
        lemma_payload_start_monotone(objects, i + 1, n);
        if i + 1 < n {
            assert(contents.header[i + 1].offset == payload_start(objects, i + 1));
        }
    }
    assert forall|i: int| 0 <= i < n implies #[trigger] decoded(words)[i] == objects[i] by {
        let read = decoded_object(words, i);
        assert(object_start(words, i) == payload_start(objects, i) + n + 1);
        assert(read.tag == objects[i].tag);
        assert(read.payload.len() == objects[i].payload.len());
        assert forall|k: int| 0 <= k < read.payload.len() implies read.payload[k]
            == objects[i].payload[k] by {
            let at = payload_start(objects, i) + k;
            lemma_payload_start_monotone(objects, i + 1, n);
            assert(contents.data[at] == objects[i].payload[k]);
            assert(words[1 + n + at] == contents.data[at]);
        }
        assert(read.payload =~= objects[i].payload);
    }
    assert(decoded(words) =~= objects);
}

} // verus!
