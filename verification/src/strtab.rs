//! String tables: names stored one after another, each closed by a NUL
//! byte, behind one leading NUL byte.

use vstd::prelude::*;

verus! {

/// The bytes of the table that holds `names` in order.
pub open spec fn string_table(names: Seq<Seq<u8>>) -> Seq<u8>
    decreases names.len(),
{
    if names.len() == 0 {
        seq![0u8]
    } else {
        string_table(names.drop_last()) + names.last() + seq![0u8]
    }
}

/// The offset at which the table of `names` holds the name of index `i`:
/// the length of the table of the names before it.
pub open spec fn name_offset(names: Seq<Seq<u8>>, i: int) -> nat {
    string_table(names.take(i)).len()
}

/// The index of the first NUL byte of `bytes`, or the length of `bytes`
/// where it has none.
pub open spec fn first_nul(bytes: Seq<u8>) -> int
    decreases bytes.len(),
{
    if bytes.len() == 0 || bytes[0] == 0 {
        0
    } else {
        1 + first_nul(bytes.drop_first())
    }
}

/// The bytes of `table` from `offset` up to the next NUL byte, if `offset`
/// lies in the table and a NUL byte follows.
pub open spec fn string_at(table: Seq<u8>, offset: int) -> Option<Seq<u8>> {
    if 0 <= offset <= table.len() && first_nul(table.skip(offset)) < table.len() - offset {
        Some(table.subrange(offset, offset + first_nul(table.skip(offset))))
    } else {
        None
    }
}

/// `first_nul` stays within the sequence and stops at a NUL byte with none before it.
pub proof fn lemma_first_nul(bytes: Seq<u8>)
    ensures
        0 <= first_nul(bytes) <= bytes.len(),
        first_nul(bytes) < bytes.len() ==> bytes[first_nul(bytes)] == 0,
        forall|i: int| 0 <= i < first_nul(bytes) ==> bytes[i] != 0,
    decreases bytes.len(),
{
    if bytes.len() > 0 && bytes[0] != 0 {
        let tail = bytes.drop_first();
        lemma_first_nul(tail);
        assert forall|i: int| 0 <= i < first_nul(bytes) implies bytes[i] != 0 by {
            if i > 0 {
                assert(bytes[i] == tail[i - 1]);
            }
        }
    }
}

/// A NUL byte with none before it is where `first_nul` stops.
pub proof fn lemma_first_nul_is(bytes: Seq<u8>, at: int)
    requires
        0 <= at < bytes.len(),
        bytes[at] == 0,
        forall|i: int| 0 <= i < at ==> bytes[i] != 0,
    ensures
        first_nul(bytes) == at,
    decreases at,
{
    if at > 0 {
        let tail = bytes.drop_first();
        assert forall|i: int| 0 <= i < at - 1 implies tail[i] != 0 by {
            assert(tail[i] == bytes[i + 1]);
        }
        lemma_first_nul_is(tail, at - 1);
    }
}

/// A table is never empty, it starts with a NUL byte, and it grows with
/// every name.
pub proof fn lemma_string_table_grows(names: Seq<Seq<u8>>, i: int)
    requires
        0 <= i <= names.len(),
    ensures
        string_table(names)[0] == 0,
        1 <= name_offset(names, i) <= string_table(names).len(),
        string_table(names).take(name_offset(names, i) as int) == string_table(names.take(i)),
        i < names.len() ==> name_offset(names, i) + names[i].len() + 1 == name_offset(
            names,
            i + 1,
        ),
    decreases names.len(),
{
    if names.len() == 0 {
        assert(names.take(i) =~= names);
        assert(string_table(names).take(1) =~= string_table(names));
    } else if i == names.len() {
        assert(names.take(i) =~= names);
        lemma_string_table_grows(names.drop_last(), 0);
        assert(string_table(names).take(string_table(names).len() as int) =~= string_table(
            names,
        ));
    } else {
        let front = names.drop_last();
        lemma_string_table_grows(front, i);
        assert(front.take(i) =~= names.take(i));
        assert(string_table(names).take(name_offset(names, i) as int) =~= string_table(
            front,
        ).take(name_offset(front, i) as int));
        if i + 1 == names.len() {
            assert(names.take(i + 1) =~= names);
            assert(names.take(i) =~= front);
        } else {
            assert(front.take(i + 1) =~= names.take(i + 1));
        }
    }
}

/// Later names stand at larger offsets.
pub proof fn lemma_name_offset_monotonic(names: Seq<Seq<u8>>, i: int, j: int)
    requires
        0 <= i <= j <= names.len(),
    ensures
        name_offset(names, i) <= name_offset(names, j),
    decreases j - i,
{
    if i < j {
        lemma_string_table_grows(names, i);
        lemma_name_offset_monotonic(names, i + 1, j);
    }
}

/// Every name without a NUL byte is read back from the offset it was
/// recorded at, by scanning to the next NUL byte.
pub proof fn lemma_name_round_trip(names: Seq<Seq<u8>>, i: int)
    requires
        0 <= i < names.len(),
        !names[i].contains(0u8),
    ensures
        string_at(string_table(names), name_offset(names, i) as int) == Some(names[i]),
{
    let table = string_table(names);
    let start = name_offset(names, i) as int;
    let end = name_offset(names, i + 1) as int;
    lemma_string_table_grows(names, i);
    lemma_string_table_grows(names, i + 1);
    let upto = string_table(names.take(i + 1));
    assert(names.take(i + 1).drop_last() =~= names.take(i));
    assert(names.take(i + 1).last() == names[i]);
    assert(upto == string_table(names.take(i)) + names[i] + seq![0u8]);
    assert(table.take(end) == upto);
    let rest = table.skip(start);
    let len = names[i].len() as int;
    assert forall|k: int| 0 <= k < len implies rest[k] == names[i][k] by {
        assert(rest[k] == table[start + k]);
        assert(table[start + k] == table.take(end)[start + k]);
    }
    assert(rest[len] == 0) by {
        assert(rest[len] == table.take(end)[start + len]);
    }
    assert forall|k: int| 0 <= k < len implies rest[k] != 0 by {
        if rest[k] == 0 {
            assert(names[i][k] == 0u8);
            assert(names[i].contains(0u8));
        }
    }
    lemma_first_nul_is(rest, len);
    assert(table.subrange(start, start + len) =~= names[i]);
}

/// Appending bytes to a table changes nothing that could be read from it before.
pub proof fn lemma_string_at_stable(table: Seq<u8>, offset: int, more: Seq<u8>)
    requires
        string_at(table, offset) is Some,
    ensures
        string_at(table + more, offset) == string_at(table, offset),
{
    let rest = table.skip(offset);
    let longer = (table + more).skip(offset);
    lemma_first_nul(rest);
    let at = first_nul(rest);
    assert forall|i: int| 0 <= i <= at implies longer[i] == rest[i] by {
        assert(longer[i] == (table + more)[offset + i]);
    }
    lemma_first_nul_is(longer, at);
    assert((table + more).subrange(offset, offset + at) =~= table.subrange(offset, offset + at));
}

/// A string table under construction.
///
/// The table only ever grows: a name, once appended, keeps its offset and
/// its bytes.
pub struct StringTable {
    bytes: Vec<u8>,
    names: Ghost<Seq<Seq<u8>>>,
}

impl View for StringTable {
    type V = Seq<Seq<u8>>;

    /// The names appended so far, in order.
    closed spec fn view(&self) -> Seq<Seq<u8>> {
        self.names@
    }
}

impl StringTable {
    /// The table holds the leading NUL byte and then exactly its names.
    pub closed spec fn wf(&self) -> bool {
        self.bytes@ == string_table(self.names@)
    }

    /// A table without names: a single NUL byte.
    pub fn new() -> (table: Self)
        ensures
            table.wf(),
            table@ == Seq::<Seq<u8>>::empty(),
    {
        let mut bytes: Vec<u8> = Vec::new();
        bytes.push(0x0);
        assert(bytes@ =~= string_table(Seq::empty()));
        StringTable { bytes, names: Ghost(Seq::empty()) }
    }

    /// The length of the table in bytes.
    pub fn len(&self) -> (len: usize)
        requires
            self.wf(),
        ensures
            len == string_table(self@).len(),
    {
        self.bytes.len()
    }

    /// Appends `name` and a closing NUL byte, and returns the offset of the name.
    pub fn append(&mut self, name: &[u8]) -> (offset: usize)
        requires
            old(self).wf(),
        ensures
            final(self).wf(),
            final(self)@ == old(self)@.push(name@),
            offset == string_table(old(self)@).len(),
            offset == name_offset(final(self)@, old(self)@.len() as int),
    {
        let offset = self.bytes.len();
        self.bytes.extend_from_slice(name);
        self.bytes.push(0x0);
        proof {
            let grown = self.names@.push(name@);
            assert(grown.drop_last() =~= self.names@);
            assert(grown.take(self.names@.len() as int) =~= self.names@);
            assert(self.bytes@ =~= string_table(grown));
            self.names = Ghost(grown);
        }
        offset
    }

    /// The bytes of the table.
    pub fn as_bytes(&self) -> (bytes: &Vec<u8>)
        requires
            self.wf(),
        ensures
            bytes@ == string_table(self@),
    {
        &self.bytes
    }

    /// The bytes of the table, which ends here.
    pub fn into_bytes(self) -> (bytes: Vec<u8>)
        requires
            self.wf(),
        ensures
            bytes@ == string_table(self@),
    {
        self.bytes
    }

    /// The name that starts at `offset`: the bytes from there up to the next
    /// NUL byte.
    pub fn string_at(&self, offset: usize) -> (name: Option<Vec<u8>>)
        requires
            self.wf(),
        ensures
            match name {
                Some(bytes) => string_at(string_table(self@), offset as int) == Some(bytes@),
                None => string_at(string_table(self@), offset as int) is None,
            },
    {
        let table = &self.bytes;
        if offset > table.len() {
            return None;
        }
        let ghost rest = table@.skip(offset as int);
        let mut name: Vec<u8> = Vec::new();
        let mut i: usize = offset;
        while i < table.len() && table[i] != 0
            invariant
                offset <= i <= table.len(),
                rest == table@.skip(offset as int),
                name@ == table@.subrange(offset as int, i as int),
                forall|k: int| 0 <= k < i - offset ==> rest[k] != 0,
            decreases table.len() - i,
        {
            name.push(table[i]);
            assert(name@ =~= table@.subrange(offset as int, i + 1));
            i += 1;
        }
        proof {
            lemma_first_nul(rest);
            if i < table.len() {
                lemma_first_nul_is(rest, i - offset);
            } else {
                assert(first_nul(rest) >= rest.len()) by {
                    if first_nul(rest) < rest.len() {
                        assert(rest[first_nul(rest)] == 0);
                    }
                }
            }
        }
        if i < table.len() {
            Some(name)
        } else {
            None
        }
    }
}

} // verus!
