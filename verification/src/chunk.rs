//! Cutting a buffer into groups of sixteen bytes.

use vstd::prelude::*;
use vstd::slice::slice_subrange;

verus! {

/// The number of bytes in a full group.
pub const GROUP_SIZE: usize = 16;

/// The number of groups that a buffer of `len` bytes is cut into: one for
/// every sixteen bytes begun. An empty buffer has no group.
pub open spec fn group_count(len: nat) -> nat {
    (len + GROUP_SIZE - 1) as nat / (GROUP_SIZE as nat)
}

/// Where the group `index` ends in a buffer of `len` bytes.
pub open spec fn group_end(len: nat, index: int) -> int {
    if GROUP_SIZE * index + GROUP_SIZE <= len {
        GROUP_SIZE * index + GROUP_SIZE
    } else {
        len as int
    }
}

/// The group `index` of `buffer`: the bytes from offset `16 * index` up to
/// the next boundary or the end of the buffer, whichever comes first.
pub open spec fn group_at(buffer: Seq<u8>, index: int) -> Seq<u8>
    recommends
        0 <= index < group_count(buffer.len()),
{
    buffer.subrange(GROUP_SIZE * index, group_end(buffer.len(), index))
}

/// The groups of `buffer`, in order.
pub open spec fn groups_of(buffer: Seq<u8>) -> Seq<Seq<u8>> {
    Seq::new(group_count(buffer.len()), |index: int| group_at(buffer, index))
}

/// A buffer seen as a row of groups. The buffer is borrowed, never changed.
#[derive(Debug, Clone, Copy)]
pub struct Chunker<'a> {
    buffer: &'a [u8],
}

impl<'a> View for Chunker<'a> {
    type V = Seq<u8>;

    /// The buffer that is cut.
    closed spec fn view(&self) -> Seq<u8> {
        self.buffer@
    }
}

impl<'a> Chunker<'a> {
    /// Sees `buffer` as a row of groups.
    pub fn new(buffer: &'a [u8]) -> (chunker: Chunker<'a>)
        ensures
            chunker@ == buffer@,
    {
        Chunker { buffer }
    }

    /// The number of groups.
    pub fn len(&self) -> (count: usize)
        ensures
            count == group_count(self@.len()),
    {
        let len = self.buffer.len();
        if len % GROUP_SIZE == 0 {
            len / GROUP_SIZE
        } else {
            len / GROUP_SIZE + 1
        }
    }

    /// Whether there is no group at all, which is so for the empty buffer
    /// only.
    pub fn is_empty(&self) -> (empty: bool)
        ensures
            empty <==> self@.len() == 0,
            empty <==> group_count(self@.len()) == 0,
    {
        self.buffer.len() == 0
    }

    /// The group `index`, or `None` past the last group. A group is never
    /// empty, and only the last one can be shorter than sixteen bytes.
    pub fn group(&self, index: usize) -> (group: Option<&'a [u8]>)
        ensures
            group is Some <==> index < group_count(self@.len()),
            group matches Some(bytes) ==> {
                &&& bytes@ == group_at(self@, index as int)
                &&& 1 <= bytes@.len() <= GROUP_SIZE
                &&& index + 1 < group_count(self@.len()) ==> bytes@.len() == GROUP_SIZE
                &&& bytes@.len() == GROUP_SIZE || bytes@.len() == self@.len() % (GROUP_SIZE as nat)
            },
    {
        let len = self.buffer.len();
        if index >= self.len() {
            return None;
        }
        let start = GROUP_SIZE * index;
        let end = if len - start >= GROUP_SIZE {
            start + GROUP_SIZE
        } else {
            len
        };
        Some(slice_subrange(self.buffer, start, end))
    }

    /// All the groups, in order.
    pub fn groups(&self) -> (all: Vec<&'a [u8]>)
        ensures
            all@.len() == group_count(self@.len()),
            forall|index: int|
                0 <= index < all@.len() ==> (#[trigger] all@[index])@ == group_at(self@, index),
    {
        let count = self.len();
        let mut all: Vec<&'a [u8]> = Vec::new();
        let mut index: usize = 0;
        while index < count
            invariant
                0 <= index <= count,
                count == group_count(self@.len()),
                all@.len() == index,
                forall|k: int| 0 <= k < index ==> (#[trigger] all@[k])@ == group_at(self@, k),
            decreases count - index,
        {
            match self.group(index) {
                Some(bytes) => {
                    all.push(bytes);
                },
                None => {},
            }
            index += 1;
        }
        all
    }
}

/// A group is never empty. Every group but the last is full; the last holds
/// what is left over, or sixteen bytes where nothing is.
pub proof fn lemma_group_len(buffer: Seq<u8>, index: int)
    requires
        0 <= index < group_count(buffer.len()),
    ensures
        1 <= group_at(buffer, index).len() <= GROUP_SIZE,
        index + 1 < group_count(buffer.len()) ==> group_at(buffer, index).len() == GROUP_SIZE,
        index + 1 == group_count(buffer.len()) ==> group_at(buffer, index).len() == if buffer.len()
            % (GROUP_SIZE as nat) == 0 {
            GROUP_SIZE as nat
        } else {
            buffer.len() % (GROUP_SIZE as nat)
        },
{
}

/// The groups of a buffer, put end to end in order, are the buffer: every
/// byte lies in exactly one group and none is moved.
pub proof fn lemma_groups_cover(buffer: Seq<u8>)
    ensures
        groups_of(buffer).flatten() == buffer,
    decreases buffer.len(),
{
    let groups = groups_of(buffer);
    if buffer.len() == 0 {
        assert(groups =~= Seq::<Seq<u8>>::empty());
    } else {
        let rest = buffer.skip(group_end(buffer.len(), 0));
        lemma_groups_cover(rest);
        assert(groups.first() == group_at(buffer, 0));
        assert forall|index: int| 0 <= index < groups_of(rest).len() implies groups_of(
            rest,
        )[index] == groups.drop_first()[index] by {
            assert(group_at(rest, index) =~= group_at(buffer, index + 1));
        }
        assert(groups.drop_first() =~= groups_of(rest));
        assert(groups.flatten() == groups.first() + groups.drop_first().flatten());
        assert(group_at(buffer, 0) + rest =~= buffer);
    }
}

} // verus!
