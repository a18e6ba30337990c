//! The encoder of tagged buffers: a table of header entries, one per object,
//! followed by the payload words of all objects.

use crate::math::{cast_i32, IVec3, Mat3, Vec3};
use vstd::prelude::*;

verus! {

/// Largest offset that the 24 low bits of a header entry can hold.
pub const MAX_OFFSET: u32 = 0x00FF_FFFF;

/// Largest number of payload words that a buffer takes.
pub const MAX_DATA_WORDS: usize = 0x0100_0000;

/// The buffer cannot take what was asked of it without an offset leaving its
/// 24 bits.
#[derive(Clone, Copy, Debug, PartialEq, Eq, Structural)]
pub struct CapacityError;

/// One entry of the header table: where an object's payload begins, and the
/// tag that tells its kind.
#[derive(Clone, Copy, Debug, PartialEq, Eq, Structural)]
pub struct HeaderEntry {
    pub offset: u32,
    pub tag: u8,
}

impl HeaderEntry {
    /// The entry as one word: the offset in the low 24 bits, the tag above.
    pub open spec fn packed(self) -> u32 {
        self.offset | ((self.tag as u32) << 24)
    }

    /// The entry that a word holds.
    pub open spec fn unpacked(word: u32) -> HeaderEntry {
        HeaderEntry { offset: word & 0x00FF_FFFF, tag: (word >> 24) as u8 }
    }

    /// The same entry, `by` words further on.
    pub open spec fn shifted(self, by: int) -> HeaderEntry {
        HeaderEntry { offset: (self.offset + by) as u32, tag: self.tag }
    }

    pub fn pack(self) -> (word: u32)
        ensures
            word == self.packed(),
    {
        self.offset | ((self.tag as u32) << 24)
    }

    pub fn unpack(word: u32) -> (entry: HeaderEntry)
        ensures
            entry == HeaderEntry::unpacked(word),
            entry.offset <= MAX_OFFSET,
    {
        assert(word & 0x00FF_FFFF <= 0x00FF_FFFF) by (bit_vector);
        HeaderEntry { offset: word & 0x00FF_FFFF, tag: (word >> 24) as u8 }
    }
}

/// Packing an entry whose offset fits in 24 bits loses nothing: the word is
/// the offset plus the tag times 2^24, and unpacking it gives the entry back.
pub proof fn lemma_unpack_pack(entry: HeaderEntry)
    requires
        entry.offset <= MAX_OFFSET,
    ensures
        HeaderEntry::unpacked(entry.packed()) == entry,
        entry.packed() == entry.offset + entry.tag * 0x0100_0000,
{
    let offset = entry.offset;
    let tag = entry.tag;
    assert(offset <= 0x00FF_FFFF ==> (offset | ((tag as u32) << 24)) == offset + tag
        * 0x0100_0000) by (bit_vector);
    assert(offset <= 0x00FF_FFFF ==> (offset | ((tag as u32) << 24)) & 0x00FF_FFFF == offset)
        by (bit_vector);
    assert(offset <= 0x00FF_FFFF ==> ((offset | ((tag as u32) << 24)) >> 24) as u8 == tag)
        by (bit_vector);
}

/// What a buffer under construction holds: the header entries with offsets
/// that count from the first payload word, and the payload words.
pub struct Contents {
    pub header: Seq<HeaderEntry>,
    pub data: Seq<u32>,
}

impl Contents {
    /// Every entry points into the payload or at its end, later entries never
    /// before earlier ones, and the payload is within its limit.
    pub open spec fn well_formed(self) -> bool {
        &&& self.data.len() <= MAX_DATA_WORDS
        &&& forall|i: int|
            0 <= i < self.header.len() ==> (#[trigger] self.header[i]).offset <= self.data.len()
        &&& forall|i: int|
            0 <= i < self.header.len() ==> (#[trigger] self.header[i]).offset <= MAX_OFFSET
        &&& forall|i: int, j: int|
            0 <= i <= j < self.header.len() ==> (#[trigger] self.header[i]).offset <= (
            #[trigger] self.header[j]).offset
    }

    /// By how many words the offsets move when the buffer is finished: past
    /// the count and the header table.
    pub open spec fn shift(self) -> int {
        self.header.len() as int + 1
    }

    /// Every offset still fits in 24 bits once moved.
    pub open spec fn relocatable(self) -> bool {
        forall|i: int|
            0 <= i < self.header.len() ==> (#[trigger] self.header[i]).offset + self.shift()
                <= MAX_OFFSET
    }

    /// The header table of the finished buffer.
    pub open spec fn relocated_header(self) -> Seq<u32> {
        Seq::new(self.header.len(), |i: int| self.header[i].shifted(self.shift()).packed())
    }

    /// The finished buffer: the count, the moved header table, the payload.
    pub open spec fn words(self) -> Seq<u32> {
        seq![self.header.len() as u32] + self.relocated_header() + self.data
    }

    /// The contents after a new object was opened with `tag`.
    pub open spec fn with_object(self, tag: u8) -> Contents {
        Contents {
            header: self.header.push(HeaderEntry { offset: self.data.len() as u32, tag }),
            data: self.data,
        }
    }

    /// The contents after `words` were appended to the payload.
    pub open spec fn with_words(self, words: Seq<u32>) -> Contents {
        Contents { header: self.header, data: self.data + words }
    }

    /// The contents after a whole object was written: opened with `tag`, then
    /// filled with `payload`.
    pub open spec fn with_payload(self, tag: u8, payload: Seq<u32>) -> Contents {
        self.with_object(tag).with_words(payload)
    }

    /// There is room for one more object of `len` payload words.
    pub open spec fn takes(self, len: nat) -> bool {
        self.data.len() <= MAX_OFFSET && self.data.len() + len <= MAX_DATA_WORDS
    }

    /// The buffer with nothing in it.
    pub open spec fn empty() -> Contents {
        Contents { header: Seq::empty(), data: Seq::empty() }
    }
}

/// The entry that header slot `index` of a finished buffer holds.
pub open spec fn entry_at(words: Seq<u32>, index: int) -> HeaderEntry {
    HeaderEntry::unpacked(words[index + 1])
}

/// What the finished buffer holds, part by part: the count in front, each
/// entry in its slot with its tag kept and its offset moved by the count plus
/// one, and the payload behind the table, word for word.
pub proof fn lemma_finished_layout(contents: Contents)
    requires
        contents.relocatable(),
    ensures
        contents.words().len() == 1 + contents.header.len() + contents.data.len(),
        contents.words()[0] == contents.header.len(),
        forall|i: int|
            0 <= i < contents.header.len() ==> {
                &&& contents.words()[i + 1] - (contents.words()[0] + 1) == (
                #[trigger] contents.header[i]).packed()
                &&& entry_at(contents.words(), i).tag == contents.header[i].tag
                &&& entry_at(contents.words(), i).offset - (contents.words()[0] + 1)
                    == contents.header[i].offset
            },
        forall|k: int|
            0 <= k < contents.data.len() ==> contents.words()[1 + contents.header.len() + k]
                == #[trigger] contents.data[k],
{
    let words = contents.words();
    let n = contents.header.len() as int;
    if n > 0 {
        assert(contents.header[0].offset + contents.shift() <= MAX_OFFSET);
    }
    assert(words[0] == n as u32);
    assert forall|i: int| 0 <= i < n implies {
        &&& words[i + 1] - (n + 1) == (#[trigger] contents.header[i]).packed()
        &&& entry_at(words, i).tag == contents.header[i].tag
        &&& entry_at(words, i).offset - (n + 1) == contents.header[i].offset
    } by {
        let moved = contents.header[i].shifted(contents.shift());
        assert(words[i + 1] == contents.relocated_header()[i]);
        assert(words[i + 1] == moved.packed());
        assert(contents.header[i].offset + contents.shift() <= MAX_OFFSET);
        lemma_unpack_pack(moved);
        let offset = contents.header[i].offset;
        let tag = contents.header[i].tag;
        let by = (n + 1) as u32;
        assert(offset + by <= 0x00FF_FFFF ==> (((offset + by) as u32) | ((tag as u32) << 24))
            - by == (offset | ((tag as u32) << 24))) by (bit_vector);
    }
    assert forall|k: int| 0 <= k < contents.data.len() implies words[1 + n + k]
        == #[trigger] contents.data[k] by {}
}

/// In well-formed contents the last entry has the largest offset, so it
/// alone decides whether the buffer can be finished.
pub proof fn lemma_relocatable_by_last(contents: Contents)
    requires
        contents.well_formed(),
    ensures
        contents.relocatable() <==> (contents.header.len() > 0 ==> contents.header.last().offset
            + contents.shift() <= MAX_OFFSET),
{
    let n = contents.header.len() as int;
    if n > 0 {
        if contents.header.last().offset + contents.shift() <= MAX_OFFSET {
            assert forall|i: int| 0 <= i < n implies (#[trigger] contents.header[i]).offset
                + contents.shift() <= MAX_OFFSET by {
                assert(contents.header[i].offset <= contents.header[n - 1].offset);
            }
        }
        if contents.relocatable() {
            assert(contents.header[n - 1].offset + contents.shift() <= MAX_OFFSET);
        }
    }
}

/// Opening an object keeps the contents well formed, as long as its offset
/// fits.
pub proof fn lemma_with_object_well_formed(contents: Contents, tag: u8)
    requires
        contents.well_formed(),
        contents.data.len() <= MAX_OFFSET,
    ensures
        contents.with_object(tag).well_formed(),
{
    let after = contents.with_object(tag);
    let n = contents.header.len() as int;
    assert forall|i: int| 0 <= i < after.header.len() implies (#[trigger] after.header[i]).offset
        <= after.data.len() && after.header[i].offset <= MAX_OFFSET by {
        if i < n {
            assert(after.header[i] == contents.header[i]);
        }
    }
    assert forall|i: int, j: int| 0 <= i <= j < after.header.len() implies (
    #[trigger] after.header[i]).offset <= (#[trigger] after.header[j]).offset by {
        if j < n {
            assert(after.header[i] == contents.header[i]);
            assert(after.header[j] == contents.header[j]);
        } else if i < n {
            assert(after.header[i] == contents.header[i]);
        }
    }
}

/// Appending words keeps the contents well formed, as long as they fit.
pub proof fn lemma_with_words_well_formed(contents: Contents, words: Seq<u32>)
    requires
        contents.well_formed(),
        contents.data.len() + words.len() <= MAX_DATA_WORDS,
    ensures
        contents.with_words(words).well_formed(),
{
}

/// A tagged buffer under construction.
pub struct TypeBuffer {
    header: Vec<HeaderEntry>,
    data: Vec<u32>,
}

impl View for TypeBuffer {
    type V = Contents;

    closed spec fn view(&self) -> Contents {
        Contents { header: self.header@, data: self.data@ }
    }
}

impl TypeBuffer {
    /// An empty buffer.
    pub fn new() -> (buffer: TypeBuffer)
        ensures
            buffer@ == Contents::empty(),
            buffer@.well_formed(),
    {
        let buffer = TypeBuffer { header: Vec::new(), data: Vec::new() };
        assert(buffer@.header =~= Seq::empty() && buffer@.data =~= Seq::empty());
        buffer
    }

    /// Number of objects opened so far.
    pub fn object_count(&self) -> (n: usize)
        ensures
            n == self@.header.len(),
    {
        self.header.len()
    }

    /// Number of payload words written so far.
    pub fn data_len(&self) -> (n: usize)
        ensures
            n == self@.data.len(),
    {
        self.data.len()
    }

    /// Opens a new object with the given tag: its payload begins at the
    /// current end of the data, and the words pushed next belong to it.
    /// Refused, with the buffer unchanged, when that offset does not fit in
    /// 24 bits.
    pub fn push_object(&mut self, object_type: u8) -> (result: Result<(), CapacityError>)
        ensures
            result.is_ok() <==> old(self)@.data.len() <= MAX_OFFSET,
            result.is_ok() ==> final(self)@ == old(self)@.with_object(object_type),
            result.is_err() ==> final(self)@ == old(self)@,
            old(self)@.well_formed() ==> final(self)@.well_formed(),
    {
        let offset = self.data.len();
        if offset > MAX_OFFSET as usize {
            return Err(CapacityError);
        }
        self.header.push(HeaderEntry { offset: offset as u32, tag: object_type });
        proof {
            if old(self)@.well_formed() {
                lemma_with_object_well_formed(old(self)@, object_type);
            }
        }
        Ok(())
    }

    /// Appends one word to the payload. Refused, with the buffer unchanged,
    /// when the payload is full.
    pub fn push_u32(&mut self, value: u32) -> (result: Result<(), CapacityError>)
        ensures
            result.is_ok() <==> old(self)@.data.len() + 1 <= MAX_DATA_WORDS,
            result.is_ok() ==> final(self)@ == old(self)@.with_words(seq![value]),
            result.is_err() ==> final(self)@ == old(self)@,
            old(self)@.well_formed() ==> final(self)@.well_formed(),
    {
        if self.data.len() >= MAX_DATA_WORDS {
            return Err(CapacityError);
        }
        self.data.push(value);
        assert(self@.data =~= old(self)@.data + seq![value]);
        Ok(())
    }

    /// Whether one more object of `len` payload words can be written.
    pub fn has_room(&self, len: usize) -> (room: bool)
        ensures
            room == self@.takes(len as nat),
    {
        let used = self.data.len();
        used <= MAX_OFFSET as usize && len <= MAX_DATA_WORDS && used <= MAX_DATA_WORDS - len
    }

    /// Appends all of `words` to the payload, or nothing when they do not all
    /// fit.
    pub fn push_words(&mut self, words: &Vec<u32>) -> (result: Result<(), CapacityError>)
        ensures
            result.is_ok() <==> old(self)@.data.len() + words@.len() <= MAX_DATA_WORDS,
            result.is_ok() ==> final(self)@ == old(self)@.with_words(words@),
            result.is_err() ==> final(self)@ == old(self)@,
            old(self)@.well_formed() ==> final(self)@.well_formed(),
    {
        let used = self.data.len();
        let count = words.len();
        if used > MAX_DATA_WORDS || count > MAX_DATA_WORDS - used {
            return Err(CapacityError);
        }
        let mut i: usize = 0;
        while i < count
            invariant
                i <= count,
                count == words@.len(),
                self@.header == old(self)@.header,
                self@.data == old(self)@.data + words@.take(i as int),
            decreases count - i,
        {
            self.data.push(words[i]);
            assert(words@.take(i as int).push(words@[i as int]) =~= words@.take(i + 1));
            i += 1;
        }
        assert(words@.take(count as int) =~= words@);
        proof {
            if old(self)@.well_formed() {
                lemma_with_words_well_formed(old(self)@, words@);
            }
        }
        Ok(())
    }

    /// Appends the three words of a vector of single-precision numbers, or
    /// nothing when they do not all fit.
    pub fn push_vec3(&mut self, value: Vec3) -> (result: Result<(), CapacityError>)
        ensures
            result.is_ok() <==> old(self)@.data.len() + 3 <= MAX_DATA_WORDS,
            result.is_ok() ==> final(self)@ == old(self)@.with_words(value.words()),
            result.is_err() ==> final(self)@ == old(self)@,
            old(self)@.well_formed() ==> final(self)@.well_formed(),
    {
        if self.data.len() > MAX_DATA_WORDS - 3 {
            return Err(CapacityError);
        }
        self.data.push(value.x);
        self.data.push(value.y);
        self.data.push(value.z);
        assert(self@.data =~= old(self)@.data + value.words());
        proof {
            if old(self)@.well_formed() {
                lemma_with_words_well_formed(old(self)@, value.words());
            }
        }
        Ok(())
    }

    /// Appends the three words of a vector of signed integers, or nothing
    /// when they do not all fit.
    pub fn push_ivec3(&mut self, value: IVec3) -> (result: Result<(), CapacityError>)
        ensures
            result.is_ok() <==> old(self)@.data.len() + 3 <= MAX_DATA_WORDS,
            result.is_ok() ==> final(self)@ == old(self)@.with_words(value.words()),
            result.is_err() ==> final(self)@ == old(self)@,
            old(self)@.well_formed() ==> final(self)@.well_formed(),
    {
        if self.data.len() > MAX_DATA_WORDS - 3 {
            return Err(CapacityError);
        }
        self.data.push(cast_i32(value.x));
        self.data.push(cast_i32(value.y));
        self.data.push(cast_i32(value.z));
        assert(self@.data =~= old(self)@.data + value.words());
        proof {
            if old(self)@.well_formed() {
                lemma_with_words_well_formed(old(self)@, value.words());
            }
        }
        Ok(())
    }

    /// Appends the nine words of a matrix, column after column, or nothing
    /// when they do not all fit.
    pub fn push_mat3(&mut self, value: Mat3) -> (result: Result<(), CapacityError>)
        ensures
            result.is_ok() <==> old(self)@.data.len() + 9 <= MAX_DATA_WORDS,
            result.is_ok() ==> final(self)@ == old(self)@.with_words(value.words()),
            result.is_err() ==> final(self)@ == old(self)@,
            old(self)@.well_formed() ==> final(self)@.well_formed(),
    {
        if self.data.len() > MAX_DATA_WORDS - 9 {
            return Err(CapacityError);
        }
        self.data.push(value.x_axis.x);
        self.data.push(value.x_axis.y);
        self.data.push(value.x_axis.z);
        self.data.push(value.y_axis.x);
        self.data.push(value.y_axis.y);
        self.data.push(value.y_axis.z);
        self.data.push(value.z_axis.x);
        self.data.push(value.z_axis.y);
        self.data.push(value.z_axis.z);
        assert(self@.data =~= old(self)@.data + value.words());
        proof {
            if old(self)@.well_formed() {
                lemma_with_words_well_formed(old(self)@, value.words());
            }
        }
        Ok(())
    }

    /// Closes the buffer: every offset moves past the count and the header
    /// table, and the three parts are laid out one after another. Refused
    /// when a moved offset would leave its 24 bits.
    pub fn finish(self) -> (result: Result<Vec<u32>, CapacityError>)
        ensures
            result.is_ok() <==> self@.relocatable(),
            result matches Ok(words) ==> {
                &&& words@ == self@.words()
                &&& words@[0] == self@.header.len()
                &&& forall|i: int|
                    0 <= i < self@.header.len() ==> words@[i + 1] - (words@[0] + 1) == (
                    #[trigger] self@.header[i]).packed()
            },
    {
        let n = self.header.len();
        if n >= MAX_OFFSET as usize {
            assert(self@.header[0].offset + self@.shift() > MAX_OFFSET);
            return Err(CapacityError);
        }
        let shift: u32 = (n + 1) as u32;
        let mut words: Vec<u32> = Vec::new();
        words.push(n as u32);
        let mut i: usize = 0;
        while i < n
            invariant
                i <= n,
                n == self.header.len(),
                n < MAX_OFFSET,
                shift == n + 1,
                words@.len() == i + 1,
                words@[0] == n as u32,
                forall|k: int|
                    0 <= k < i ==> (#[trigger] self@.header[k]).offset + self@.shift()
                        <= MAX_OFFSET,
                forall|k: int|
                    0 <= k < i ==> words@[k + 1] == self@.relocated_header()[k],
            decreases n - i,
        {
            let entry = self.header[i];
            if entry.offset > MAX_OFFSET - shift {
                assert(self@.header[i as int].offset + self@.shift() > MAX_OFFSET);
                return Err(CapacityError);
            }
            let moved = HeaderEntry { offset: entry.offset + shift, tag: entry.tag };
            assert(moved == self@.header[i as int].shifted(self@.shift()));
            words.push(moved.pack());
            i += 1;
        }
        let mut data = self.data;
        words.append(&mut data);
        assert(words@ =~= self@.words());
        proof {
            lemma_finished_layout(self@);
        }
        Ok(words)
    }
}

} // verus!
