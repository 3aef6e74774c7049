//! Owned byte fragments, and the rope that strings them together.

use vstd::prelude::*;
use vstd::seq_lib::lemma_flatten_concat;

verus! {

/// One fragment: an owned buffer, the number of its bytes that are valid, and
/// a cursor into them.
#[derive(Debug)]
pub struct Bytes {
    buf: Vec<u8>,
    pos: usize,
    len: usize,
}

impl View for Bytes {
    type V = Seq<u8>;

    /// The valid bytes of the fragment.
    closed spec fn view(&self) -> Seq<u8> {
        self.buf@.take(self.len as int)
    }
}

impl Bytes {
    /// The valid bytes lie within the buffer, and the cursor within them.
    pub closed spec fn wf(&self) -> bool {
        self.pos <= self.len && self.len <= self.buf@.len()
    }

    /// The whole buffer, valid or not.
    pub closed spec fn storage(&self) -> Seq<u8> {
        self.buf@
    }

    /// The cursor, counted from the start of the fragment.
    pub closed spec fn cursor(&self) -> nat {
        self.pos as nat
    }

    /// The number of bytes that count as valid.
    pub closed spec fn valid_len(&self) -> nat {
        self.len as nat
    }

    /// What it is to be well formed: the cursor lies within the valid
    /// bytes, and the buffer holds them.
    pub proof fn lemma_wf_iff(&self)
        ensures
            self.wf() <==> self.cursor() <= self.valid_len() <= self.storage().len(),
            self.wf() ==> self@.len() == self.valid_len(),
    {
    }

    /// In a well-formed fragment the valid bytes are the first ones of the
    /// buffer, and the cursor is among them.
    pub proof fn lemma_wf(&self)
        requires
            self.wf(),
        ensures
            self@.len() <= self.storage().len(),
            self@ == self.storage().take(self@.len() as int),
            self.cursor() <= self@.len(),
    {
    }

    pub fn new(buf: Vec<u8>, len: usize) -> (r: Bytes)
        requires
            len <= buf@.len(),
        ensures
            r.wf(),
            r@ == buf@.take(len as int),
            r.storage() == buf@,
            r.cursor() == 0,
            r.valid_len() == len,
    {
        Bytes { buf, pos: 0, len }
    }

    pub fn len(&self) -> (r: usize)
        requires
            self.wf(),
        ensures
            r == self@.len(),
    {
        self.len
    }

    /// True when the cursor stands behind the last valid byte.
    pub fn is_empty(&self) -> (r: bool)
        requires
            self.wf(),
        ensures
            r == (self.cursor() >= self@.len()),
    {
        self.pos >= self.len
    }

    pub fn current_pos(&self) -> (r: usize)
        ensures
            r == self.cursor(),
    {
        self.pos
    }

    /// The byte under the cursor.
    pub fn peek(&self) -> (r: Option<u8>)
        requires
            self.wf(),
        ensures
            r == (if self.cursor() < self@.len() {
                Some(self@[self.cursor() as int])
            } else {
                None
            }),
    {
        self.at(0)
    }

    /// The valid byte at `index` counted from the cursor, or, for a negative
    /// `index`, counted back from the end of the valid bytes.
    pub fn at(&self, index: isize) -> (r: Option<u8>)
        requires
            self.wf(),
        ensures
            r == (if index < 0 {
                if self@.len() + index >= 0 {
                    Some(self@[self@.len() + index])
                } else {
                    None
                }
            } else if self.cursor() + index < self@.len() {
                Some(self@[self.cursor() + index])
            } else {
                None
            }),
    {
        if index < 0 {
            let back: usize = (-(index + 1)) as usize;
            if back < self.len {
                Some(self.buf[self.len - back - 1])
            } else {
                None
            }
        } else {
            let forward: usize = index as usize;
            if forward < self.len - self.pos {
                Some(self.buf[self.pos + forward])
            } else {
                None
            }
        }
    }

    /// The valid byte at `index`, counted from the start of the fragment.
    pub fn get(&self, index: usize) -> (r: Option<u8>)
        requires
            self.wf(),
        ensures
            r == (if index < self@.len() {
                Some(self@[index as int])
            } else {
                None
            }),
    {
        if index < self.len {
            Some(self.buf[index])
        } else {
            None
        }
    }

    /// Moves the cursor forward by `count`; a negative `count` leaves it.
    pub fn advance(&mut self, count: isize)
        requires
            old(self).wf(),
            count < 0 || old(self).cursor() + count <= old(self)@.len(),
        ensures
            final(self).wf(),
            final(self)@ == old(self)@,
            final(self).storage() == old(self).storage(),
            final(self).cursor() == (if count < 0 {
                old(self).cursor()
            } else {
                (old(self).cursor() + count) as nat
            }),
    {
        if count < 0 {
            return ;
        }
        self.pos = self.pos + count as usize;
    }

    /// Returns the byte under the cursor and steps over it.
    pub fn bump(&mut self) -> (r: Option<u8>)
        requires
            old(self).wf(),
            old(self).cursor() < old(self)@.len(),
        ensures
            final(self).wf(),
            r == Some(old(self)@[old(self).cursor() as int]),
            final(self)@ == old(self)@,
            final(self).storage() == old(self).storage(),
            final(self).cursor() == old(self).cursor() + 1,
    {
        let byte = self.peek();
        self.advance(1);
        byte
    }

    /// Returns the byte under the cursor and steps over it, or `None` at the end.
    pub fn next(&mut self) -> (r: Option<u8>)
        requires
            old(self).wf(),
        ensures
            final(self).wf(),
            final(self)@ == old(self)@,
            final(self).storage() == old(self).storage(),
            old(self).cursor() < old(self)@.len() ==> r == Some(
                old(self)@[old(self).cursor() as int],
            ) && final(self).cursor() == old(self).cursor() + 1,
            old(self).cursor() >= old(self)@.len() ==> r is None && final(self).cursor() == old(self).cursor(),
    {
        if self.len > self.pos {
            let byte = self.buf[self.pos];
            self.pos += 1;
            Some(byte)
        } else {
            None
        }
    }

    pub fn buffer(&self) -> (r: &Vec<u8>)
        ensures
            r@ == self.storage(),
    {
        &self.buf
    }

    /// A copy of the valid bytes.
    pub fn to_vec(&self) -> (r: Vec<u8>)
        requires
            self.wf(),
        ensures
            r@ == self@,
    {
        let mut r: Vec<u8> = Vec::with_capacity(self.len);
        let mut i: usize = 0;
        while i < self.len
            invariant
                self.wf(),
                i <= self.len,
                r@ == self.buf@.take(i as int),
            decreases self.len - i,
        {
            r.push(self.buf[i]);
            i += 1;
            assert(r@ =~= self.buf@.take(i as int));
        }
        r
    }

    /// The buffer, to be changed in place. The cursor and the number of valid
    /// bytes stay; the fragment is well formed again once the buffer holds
    /// as many bytes.
    pub fn buffer_mut(&mut self) -> (r: &mut Vec<u8>)
        ensures
            r@ == old(self).storage(),
            final(self).storage() == final(r)@,
            final(self).cursor() == old(self).cursor(),
            final(self).valid_len() == old(self).valid_len(),
    {
        &mut self.buf
    }

    /// A copy of the bytes of the buffer from index `start` to index `end`,
    /// both inclusive.
    pub fn copy_buffer(&self, start: usize, end: usize) -> (r: Vec<u8>)
        requires
            start <= end < self.storage().len(),
        ensures
            r@ == self.storage().subrange(start as int, end + 1),
    {
        let limit = self.buf.len();
        let size = end - start + 1;
        let mut dest: Vec<u8> = Vec::with_capacity(size);
        let mut i: usize = start;
        while i <= end
            invariant
                start <= i <= end + 1,
                end < limit == self.buf@.len(),
                dest@ == self.buf@.subrange(start as int, i as int),
            decreases end + 1 - i,
        {
            dest.push(self.buf[i]);
            i += 1;
            assert(dest@ =~= self.buf@.subrange(start as int, i as int));
        }
        dest
    }

    /// Drops the first `index` bytes of the buffer. The cursor and the number
    /// of valid bytes stay as they are, so the buffer must still hold that many.
    pub fn split_off(&mut self, index: usize)
        requires
            old(self).wf(),
            index + old(self)@.len() <= old(self).storage().len(),
        ensures
            final(self).wf(),
            final(self).storage() == old(self).storage().skip(index as int),
            final(self)@ == old(self).storage().subrange(index as int, index + old(self)@.len()),
            final(self).cursor() == old(self).cursor(),
    {
        let tail = self.buf.split_off(index);
        self.buf = tail;
        assert(self.buf@.take(self.len as int) =~= old(self).buf@.subrange(
            index as int,
            index + old(self).len,
        ));
    }

    /// The fragment without its first `count` valid bytes, the cursor back at the start.
    pub fn without_front(self, count: usize) -> (r: Bytes)
        requires
            self.wf(),
            count <= self@.len(),
        ensures
            r.wf(),
            r@ == self@.skip(count as int),
            r.cursor() == 0,
    {
        let Bytes { buf, pos: _, len } = self;
        let mut buf = buf;
        let tail = buf.split_off(count);
        assert(tail@.take(len - count) =~= self.buf@.take(len as int).skip(count as int));
        Bytes { buf: tail, pos: 0, len: len - count }
    }
}

impl Default for Bytes {
    fn default() -> (r: Bytes)
        ensures
            r.wf(),
            r@ == Seq::<u8>::empty(),
            r.cursor() == 0,
    {
        Bytes::new(Vec::new(), 0)
    }
}

impl From<Vec<u8>> for Bytes {
    fn from(value: Vec<u8>) -> (r: Bytes) {
        let len = value.len();
        Bytes { buf: value, pos: 0, len }
    }
}

impl vstd::std_specs::convert::FromSpecImpl<Vec<u8>> for Bytes {
    open spec fn obeys_from_spec() -> bool {
        true
    }

    closed spec fn from_spec(value: Vec<u8>) -> Bytes {
        Bytes { buf: value, pos: 0, len: value.len() }
    }
}

/// A fragment made from a vector holds all of its bytes, the cursor at the start.
pub proof fn lemma_bytes_from_vec(value: Vec<u8>)
    ensures
        <Bytes as vstd::std_specs::convert::FromSpec<Vec<u8>>>::from_spec(value).wf(),
        <Bytes as vstd::std_specs::convert::FromSpec<Vec<u8>>>::from_spec(value)@ == value@,
        <Bytes as vstd::std_specs::convert::FromSpec<Vec<u8>>>::from_spec(value).cursor() == 0,
{
    assert(value@.take(value@.len() as int) =~= value@);
}

/// The valid bytes of each fragment, in order.
pub open spec fn fragment_views(fragments: Seq<Bytes>) -> Seq<Seq<u8>> {
    fragments.map_values(|b: Bytes| b@)
}

/// What is left of the fragments once the first `pos` bytes are gone: the
/// fragments that lie wholly before `pos` are dropped, the one that holds
/// `pos` loses its head, the ones behind it stay.
pub open spec fn pruned(fragments: Seq<Seq<u8>>, pos: nat) -> Seq<Seq<u8>>
    decreases fragments.len(),
{
    if fragments.len() == 0 {
        fragments
    } else if pos >= fragments[0].len() {
        pruned(fragments.drop_first(), (pos - fragments[0].len()) as nat)
    } else {
        seq![fragments[0].skip(pos as int)] + fragments.drop_first()
    }
}

/// The bytes of the first `i` fragments stand at the front of the whole.
pub proof fn lemma_flatten_take(fragments: Seq<Seq<u8>>, i: int)
    requires
        0 <= i < fragments.len(),
    ensures
        fragments.take(i + 1).flatten() == fragments.take(i).flatten() + fragments[i],
        fragments.flatten() == fragments.take(i).flatten() + fragments[i] + fragments.skip(
            i + 1,
        ).flatten(),
{
    assert(fragments.take(i + 1) =~= fragments.take(i).push(fragments[i]));
    fragments.take(i).lemma_flatten_push(fragments[i]);
    assert(fragments =~= fragments.take(i + 1) + fragments.skip(i + 1));
    lemma_flatten_concat(fragments.take(i + 1), fragments.skip(i + 1));
}

/// Pruning keeps exactly the bytes from `pos` on.
pub proof fn lemma_pruned_content(fragments: Seq<Seq<u8>>, pos: nat)
    requires
        pos <= fragments.flatten().len(),
    ensures
        pruned(fragments, pos).flatten() == fragments.flatten().skip(pos as int),
    decreases fragments.len(),
{
    if fragments.len() == 0 {
        assert(fragments.flatten().skip(pos as int) =~= fragments.flatten());
    } else if pos >= fragments[0].len() {
        lemma_pruned_content(fragments.drop_first(), (pos - fragments[0].len()) as nat);
        assert(fragments.flatten().skip(pos as int) =~= fragments.drop_first().flatten().skip(
            pos - fragments[0].len(),
        ));
    } else {
        let head = seq![fragments[0].skip(pos as int)];
        lemma_flatten_concat(head, fragments.drop_first());
        head.lemma_flatten_one_element();
        assert(fragments.flatten().skip(pos as int) =~= fragments[0].skip(pos as int)
            + fragments.drop_first().flatten());
    }
}

/// Pruning at the start of the later fragments, once the earlier ones are consumed.
proof fn lemma_pruned_skip(fragments: Seq<Seq<u8>>, pos: nat, i: int)
    requires
        0 <= i <= fragments.len(),
        fragments.take(i).flatten().len() <= pos,
    ensures
        pruned(fragments, pos) == pruned(
            fragments.skip(i),
            (pos - fragments.take(i).flatten().len()) as nat,
        ),
    decreases i,
{
    if i == 0 {
        assert(fragments.skip(0) =~= fragments);
        assert(fragments.take(0) =~= Seq::<Seq<u8>>::empty());
    } else {
        lemma_flatten_take(fragments, i - 1);
        lemma_pruned_skip(fragments, pos, i - 1);
        let rest = fragments.skip(i - 1);
        assert(rest.drop_first() =~= fragments.skip(i));
        assert(rest[0] == fragments[i - 1]);
    }
}

/// A rope: fragments in the order of their arrival, read as one byte stream
/// with a single read cursor.
#[derive(Debug)]
pub struct FragmentedBytes {
    bytes_vec: Vec<Bytes>,
    read_pos: usize,
    total_len: usize,
}

impl FragmentedBytes {
    /// Every fragment is well formed, the cached length is that of the
    /// stream, and the read cursor lies within it.
    pub closed spec fn wf(&self) -> bool {
        &&& forall|i: int| 0 <= i < self.bytes_vec@.len() ==> (#[trigger] self.bytes_vec@[i]).wf()
        &&& self.total_len == fragment_views(self.bytes_vec@).flatten().len()
        &&& self.read_pos <= self.total_len
    }

    /// The fragments, each by its valid bytes.
    pub closed spec fn fragments(&self) -> Seq<Seq<u8>> {
        fragment_views(self.bytes_vec@)
    }

    /// The byte stream: the fragments one after the other.
    pub open spec fn content(&self) -> Seq<u8> {
        self.fragments().flatten()
    }

    /// The read cursor, counted from the start of the stream.
    pub closed spec fn consumed(&self) -> nat {
        self.read_pos as nat
    }

    /// The bytes from the read cursor on.
    pub open spec fn remaining(&self) -> Seq<u8> {
        self.content().skip(self.consumed() as int)
    }

    /// In a well-formed rope the read cursor lies within the stream, whose
    /// length fits the machine.
    pub proof fn lemma_wf(&self)
        requires
            self.wf(),
        ensures
            self.consumed() <= self.content().len() <= usize::MAX,
    {
    }

    pub fn new(bytes_vec: Vec<Bytes>) -> (r: FragmentedBytes)
        requires
            forall|i: int| 0 <= i < bytes_vec@.len() ==> (#[trigger] bytes_vec@[i]).wf(),
            fragment_views(bytes_vec@).flatten().len() <= usize::MAX,
        ensures
            r.wf(),
            r.fragments() == fragment_views(bytes_vec@),
            r.consumed() == 0,
    {
        let mut total_len: usize = 0;
        let ghost frags = fragment_views(bytes_vec@);
        let mut i: usize = 0;
        while i < bytes_vec.len()
            invariant
                i <= bytes_vec.len(),
                forall|j: int| 0 <= j < bytes_vec@.len() ==> (#[trigger] bytes_vec@[j]).wf(),
                frags == fragment_views(bytes_vec@),
                frags.flatten().len() <= usize::MAX,
                total_len == frags.take(i as int).flatten().len(),
            decreases bytes_vec.len() - i,
        {
            proof {
                lemma_flatten_take(frags, i as int);
            }
            total_len = total_len + bytes_vec[i].len();
            i += 1;
        }
        assert(frags.take(i as int) =~= frags);
        FragmentedBytes { bytes_vec, read_pos: 0, total_len }
    }

    pub fn push_bytes(&mut self, bytes: Bytes)
        requires
            old(self).wf(),
            bytes.wf(),
            old(self).content().len() + bytes@.len() <= usize::MAX,
        ensures
            final(self).wf(),
            final(self).fragments() == old(self).fragments().push(bytes@),
            final(self).content() == old(self).content() + bytes@,
            final(self).consumed() == old(self).consumed(),
    {
        proof {
            fragment_views(self.bytes_vec@).lemma_flatten_push(bytes@);
        }
        let added = bytes.len();
        self.bytes_vec.push(bytes);
        assert(fragment_views(self.bytes_vec@) =~= fragment_views(old(self).bytes_vec@).push(
            bytes@,
        ));
        self.total_len = self.total_len + added;
    }

    pub fn iter(&self) -> (r: FragmentedBytesIterator<'_>)
        requires
            self.wf(),
        ensures
            r.rope() == self,
            r.position() == self.consumed(),
    {
        FragmentedBytesIterator::new(self)
    }

    pub fn read_pos(&self) -> (r: usize)
        ensures
            r == self.consumed(),
    {
        self.read_pos
    }

    pub fn total_len(&self) -> (r: usize)
        requires
            self.wf(),
        ensures
            r == self.content().len(),
            self.consumed() <= r,
    {
        self.total_len
    }

    /// Moves the read cursor forward to `pos`.
    pub fn set_read_pos(&mut self, pos: usize)
        requires
            old(self).wf(),
            old(self).consumed() <= pos <= old(self).content().len(),
        ensures
            final(self).wf(),
            final(self).fragments() == old(self).fragments(),
            final(self).consumed() == pos,
    {
        self.read_pos = pos;
    }

    /// Moves the read cursor forward by `len` bytes and returns `true`, or,
    /// where fewer than `len` bytes remain, leaves it and returns `false`.
    pub fn advance_read_pos(&mut self, len: usize) -> (moved: bool)
        requires
            old(self).wf(),
        ensures
            final(self).wf(),
            final(self).fragments() == old(self).fragments(),
            final(self).consumed() >= old(self).consumed(),
            moved == (len <= old(self).remaining().len()),
            final(self).consumed() == (if moved {
                old(self).consumed() + len
            } else {
                old(self).consumed() as int
            }),
    {
        if self.has_n_bytes(len) {
            self.read_pos = self.read_pos + len;
            true
        } else {
            false
        }
    }

    /// True when at least `n` bytes remain behind the read cursor.
    pub fn has_n_bytes(&self, n: usize) -> (r: bool)
        requires
            self.wf(),
        ensures
            r == (n <= self.remaining().len()),
    {
        n <= self.total_len - self.read_pos
    }

    /// The byte at `offset` behind the read cursor.
    pub fn peek_at(&self, offset: usize) -> (r: Option<u8>)
        requires
            self.wf(),
        ensures
            r == (if offset < self.remaining().len() {
                Some(self.remaining()[offset as int])
            } else {
                None
            }),
    {
        if offset < self.total_len - self.read_pos {
            self.byte_at(self.read_pos + offset)
        } else {
            None
        }
    }

    /// The byte at `pos`, counted from the start of the stream.
    pub fn byte_at(&self, pos: usize) -> (r: Option<u8>)
        requires
            self.wf(),
        ensures
            r == (if pos < self.content().len() {
                Some(self.content()[pos as int])
            } else {
                None
            }),
    {
        let ghost frags = self.fragments();
        let mut c: usize = pos;
        let mut i: usize = 0;
        while i < self.bytes_vec.len()
            invariant
                self.wf(),
                i <= self.bytes_vec.len(),
                frags == fragment_views(self.bytes_vec@),
                c + frags.take(i as int).flatten().len() == pos,
            decreases self.bytes_vec.len() - i,
        {
            let fragment = &self.bytes_vec[i];
            proof {
                lemma_flatten_take(frags, i as int);
            }
            if c < fragment.len() {
                return fragment.get(c);
            }
            c -= fragment.len();
            i += 1;
        }
        assert(frags.take(i as int) =~= frags);
        None
    }

    /// The next `len` bytes behind the read cursor, copied out, or `None`
    /// where fewer remain. The read cursor stays.
    pub fn copy_buffer_of_len(&self, len: usize) -> (r: Option<Vec<u8>>)
        requires
            self.wf(),
        ensures
            len <= self.remaining().len() ==> (r matches Some(v) && v@ == self.remaining().take(
                len as int,
            )),
            len > self.remaining().len() ==> r is None,
    {
        if !self.has_n_bytes(len) {
            return None;
        }
        if len == 0 {
            let v: Vec<u8> = Vec::new();
            assert(v@ =~= self.remaining().take(0));
            return Some(v);
        }
        let end = self.read_pos + len - 1;
        let v = self.copy_buffer(end);
        assert(v@ =~= self.remaining().take(len as int));
        Some(v)
    }

    /// The bytes from the read cursor up to and including the one at `end`,
    /// counted from the start of the stream; none where `end` lies before the
    /// read cursor.
    pub fn copy_buffer(&self, end: usize) -> (r: Vec<u8>)
        requires
            self.wf(),
            end < self.consumed() || end < self.content().len(),
        ensures
            r@ == (if end < self.consumed() {
                Seq::<u8>::empty()
            } else {
                self.content().subrange(self.consumed() as int, end + 1)
            }),
    {
        if end < self.read_pos {
            return Vec::new();
        }
        let len = end - self.read_pos + 1;
        let mut vector: Vec<u8> = Vec::with_capacity(len);
        let mut iter = self.iter();
        let mut i: usize = 0;
        while i < len
            invariant
                self.wf(),
                iter.rope() == self,
                i <= len,
                len == end - self.read_pos + 1,
                end < self.content().len(),
                iter.position() == self.read_pos + i,
                vector@ == self.content().subrange(self.read_pos as int, self.read_pos + i),
            decreases len - i,
        {
            let byte = iter.next();
            match byte {
                Some(b) => {
                    vector.push(b);
                },
                None => {},
            }
            i += 1;
            assert(vector@ =~= self.content().subrange(self.read_pos as int, self.read_pos + i));
        }
        vector
    }

    /// The fragments, each copied into a vector of its own.
    pub fn to_fragments(&self) -> (r: Vec<Vec<u8>>)
        requires
            self.wf(),
        ensures
            r@.map_values(|fragment: Vec<u8>| fragment@) == self.fragments(),
    {
        let mut r: Vec<Vec<u8>> = Vec::new();
        let ghost all = self.fragments();
        let mut i: usize = 0;
        while i < self.bytes_vec.len()
            invariant
                self.wf(),
                i <= self.bytes_vec.len(),
                all == fragment_views(self.bytes_vec@),
                r@.map_values(|fragment: Vec<u8>| fragment@) == all.take(i as int),
            decreases self.bytes_vec.len() - i,
        {
            let fragment = self.bytes_vec[i].to_vec();
            let ghost before = r@.map_values(|fragment: Vec<u8>| fragment@);
            r.push(fragment);
            i += 1;
            assert(r@.map_values(|fragment: Vec<u8>| fragment@) =~= before.push(fragment@));
            assert(r@.map_values(|fragment: Vec<u8>| fragment@) =~= all.take(i as int));
        }
        assert(all.take(i as int) =~= all);
        r
    }

    /// The bytes from the read cursor on, copied into one vector.
    pub fn to_vec(&self) -> (r: Vec<u8>)
        requires
            self.wf(),
        ensures
            r@ == self.remaining(),
    {
        let len = self.total_len - self.read_pos;
        match self.copy_buffer_of_len(len) {
            Some(v) => {
                assert(self.remaining().take(len as int) =~= self.remaining());
                v
            },
            None => Vec::new(),
        }
    }

    /// Prunes the rope: the bytes before the read cursor are given up, and the
    /// read cursor of what is left stands at its start.
    pub fn remaining_bytes(self) -> (r: FragmentedBytes)
        requires
            self.wf(),
        ensures
            r.wf(),
            r.fragments() == pruned(self.fragments(), self.consumed()),
            r.content() == self.remaining(),
            r.consumed() == 0,
    {
        let ghost frags = self.fragments();
        let FragmentedBytes { bytes_vec, read_pos, total_len } = self;
        let mut bytes_vec = bytes_vec;
        let mut rest: usize = read_pos;
        let mut i: usize = 0;
        proof {
            lemma_pruned_content(frags, read_pos as nat);
        }
        while i < bytes_vec.len() && rest >= bytes_vec[i].len()
            invariant
                i <= bytes_vec.len(),
                forall|j: int| 0 <= j < bytes_vec@.len() ==> (#[trigger] bytes_vec@[j]).wf(),
                frags == fragment_views(bytes_vec@),
                rest + frags.take(i as int).flatten().len() == read_pos,
            decreases bytes_vec.len() - i,
        {
            proof {
                lemma_flatten_take(frags, i as int);
            }
            rest -= bytes_vec[i].len();
            i += 1;
        }
        proof {
            lemma_pruned_skip(frags, read_pos as nat, i as int);
        }
        let mut tail = bytes_vec.split_off(i);
        assert(fragment_views(tail@) =~= frags.skip(i as int));
        if tail.len() > 0 && rest > 0 {
            let first = tail.remove(0);
            let trimmed = first.without_front(rest);
            assert(fragment_views(tail@) =~= frags.skip(i as int).drop_first());
            tail.insert(0, trimmed);
            assert(fragment_views(tail@) =~= seq![frags[i as int].skip(rest as int)] + frags.skip(
                i as int,
            ).drop_first());
        } else if tail.len() > 0 {
            assert(frags[i as int].skip(0) =~= frags[i as int]);
            assert(fragment_views(tail@) =~= seq![frags[i as int].skip(rest as int)] + frags.skip(
                i as int,
            ).drop_first());
        } else {
            assert(frags.take(i as int) =~= frags);
        }
        FragmentedBytes { bytes_vec: tail, read_pos: 0, total_len: total_len - read_pos }
    }

    /// Hands out what is left behind the read cursor as a rope of its own and
    /// leaves this one empty.
    pub fn take_remaining(&mut self) -> (r: FragmentedBytes)
        requires
            old(self).wf(),
        ensures
            final(self).wf(),
            final(self).fragments() == Seq::<Seq<u8>>::empty(),
            final(self).consumed() == 0,
            r.wf(),
            r.fragments() == pruned(old(self).fragments(), old(self).consumed()),
            r.content() == old(self).remaining(),
            r.consumed() == 0,
    {
        let mut taken = FragmentedBytes::default();
        core::mem::swap(self, &mut taken);
        taken.remaining_bytes()
    }
}

impl Default for FragmentedBytes {
    fn default() -> (r: FragmentedBytes)
        ensures
            r.wf(),
            r.fragments() == Seq::<Seq<u8>>::empty(),
            r.consumed() == 0,
    {
        let r = FragmentedBytes::new(Vec::new());
        assert(r.fragments() =~= Seq::<Seq<u8>>::empty());
        r
    }
}

/// A cursor of its own over a rope, which starts at the rope's read cursor.
#[derive(Debug)]
pub struct FragmentedBytesIterator<'a> {
    fragmented_bytes: &'a FragmentedBytes,
    current_pos: usize,
}

impl<'a> FragmentedBytesIterator<'a> {
    /// The rope that is walked.
    pub closed spec fn rope(&self) -> &FragmentedBytes {
        self.fragmented_bytes
    }

    /// The cursor, counted from the start of the stream.
    pub closed spec fn position(&self) -> nat {
        self.current_pos as nat
    }

    pub fn new(fragmented_bytes: &'a FragmentedBytes) -> (r: FragmentedBytesIterator<'a>)
        ensures
            r.rope() == fragmented_bytes,
            r.position() == fragmented_bytes.consumed(),
    {
        let current_pos = fragmented_bytes.read_pos();
        FragmentedBytesIterator { fragmented_bytes, current_pos }
    }

    pub fn current_pos(&self) -> (r: usize)
        ensures
            r == self.position(),
    {
        self.current_pos
    }

    /// The byte under the cursor.
    pub fn peek(&self) -> (r: Option<u8>)
        requires
            self.rope().wf(),
        ensures
            r == (if self.position() < self.rope().content().len() {
                Some(self.rope().content()[self.position() as int])
            } else {
                None
            }),
    {
        self.at_current_pos()
    }

    fn at_current_pos(&self) -> (r: Option<u8>)
        requires
            self.rope().wf(),
        ensures
            r == (if self.position() < self.rope().content().len() {
                Some(self.rope().content()[self.position() as int])
            } else {
                None
            }),
    {
        self.fragmented_bytes.byte_at(self.current_pos)
    }

    /// Returns the byte under the cursor and steps over it, or `None` at the
    /// end of the stream.
    pub fn next(&mut self) -> (r: Option<u8>)
        requires
            old(self).rope().wf(),
        ensures
            final(self).rope() == old(self).rope(),
            old(self).position() < old(self).rope().content().len() ==> r == Some(
                old(self).rope().content()[old(self).position() as int],
            ) && final(self).position() == old(self).position() + 1,
            old(self).position() >= old(self).rope().content().len() ==> r is None && final(self).position() == old(self).position(),
    {
        let byte = self.at_current_pos();
        if byte.is_some() {
            proof {
                self.fragmented_bytes.lemma_wf();
            }
            self.current_pos += 1;
            return byte;
        }
        None
    }
}

} // verus!
