use vstd::prelude::*;

verus! {

/// Slots of the ring; it holds at most one fewer keys.
pub const BUFFER_SIZE: usize = 128;

/// A ring of decoded keys between the keyboard interrupt (producer) and
/// the shell (consumer).
pub struct KeyboardBuffer {
    buffer: Vec<Option<char>>,
    read_index: usize,
    write_index: usize,
}

impl KeyboardBuffer {
    pub closed spec fn count(&self) -> nat {
        ((self.write_index + BUFFER_SIZE - self.read_index) % (BUFFER_SIZE as int)) as nat
    }

    /// The keys waiting, oldest first.
    pub closed spec fn contents(&self) -> Seq<char> {
        Seq::new(self.count(), |i: int| self.buffer@[(self.read_index + i) % (BUFFER_SIZE as int)].unwrap())
    }

    pub closed spec fn wf(&self) -> bool {
        &&& self.buffer@.len() == BUFFER_SIZE
        &&& self.read_index < BUFFER_SIZE
        &&& self.write_index < BUFFER_SIZE
        &&& forall|i: int| 0 <= i < self.count() ==>
                (#[trigger] self.buffer@[(self.read_index + i) % (BUFFER_SIZE as int)]).is_some()
    }

    /// An empty ring.
    pub fn new() -> (r: Self)
        ensures
            r.wf(),
            r.contents().len() == 0,
    {
        let mut buffer: Vec<Option<char>> = Vec::new();
        let mut i: usize = 0;
        while i < BUFFER_SIZE
            invariant
                i <= BUFFER_SIZE,
                buffer@.len() == i,
            decreases BUFFER_SIZE - i,
        {
            buffer.push(None);
            i = i + 1;
        }
        KeyboardBuffer { buffer, read_index: 0, write_index: 0 }
    }

    /// Adds a key; dropped when the ring is full (127 keys).
    pub fn push(&mut self, c: char)
        requires
            old(self).wf(),
        ensures
            final(self).wf(),
            final(self).contents().len() < BUFFER_SIZE,
            old(self).contents().len() == BUFFER_SIZE - 1 ==> final(self).contents() == old(self).contents(),
            old(self).contents().len() < BUFFER_SIZE - 1 ==> final(self).contents() == old(self).contents().push(c),
    {
        let next = (self.write_index + 1) % BUFFER_SIZE;
        if next == self.read_index {
            return;
        }
        let ghost old_buf = self.buffer@;
        self.buffer.set(self.write_index, Some(c));
        self.write_index = next;
        proof {
            let r = self.read_index as int;
            let w = old(self).write_index as int;
            assert(self.count() == old(self).count() + 1);
            assert((r + old(self).count()) % 128 == w);
            assert forall|i: int| 0 <= i < self.count() implies
                (#[trigger] self.buffer@[(r + i) % (BUFFER_SIZE as int)]).is_some() by {
                if i < old(self).count() {
                    assert(self.buffer@[(r + i) % 128] == old_buf[(r + i) % 128]);
                }
            }
            assert(self.contents() =~= old(self).contents().push(c));
        }
    }

    /// Takes the oldest key, if any.
    pub fn pop(&mut self) -> (r: Option<char>)
        requires
            old(self).wf(),
        ensures
            final(self).wf(),
            old(self).contents().len() == 0 ==> r.is_none() && final(self).contents() == old(self).contents(),
            old(self).contents().len() > 0 ==> r == Some(old(self).contents()[0])
                && final(self).contents() == old(self).contents().drop_first(),
    {
        if self.read_index == self.write_index {
            return None;
        }
        let c = self.buffer[self.read_index];
        self.read_index = (self.read_index + 1) % BUFFER_SIZE;
        proof {
            let r = old(self).read_index as int;
            assert(old(self).count() > 0);
            assert(self.count() + 1 == old(self).count());
            assert((r + 0) % 128 == r);
            assert forall|i: int| 0 <= i < self.count() implies
                (#[trigger] self.buffer@[(self.read_index + i) % (BUFFER_SIZE as int)]).is_some() by {
                assert((self.read_index + i) % 128 == (r + (i + 1)) % 128);
                assert(old(self).buffer@[(r + (i + 1)) % 128].is_some());
            }
            assert forall|i: int| 0 <= i < self.count() implies
                #[trigger] self.contents()[i] == old(self).contents().drop_first()[i] by {
                assert((self.read_index + i) % 128 == (r + (i + 1)) % 128);
            }
            assert(self.contents() =~= old(self).contents().drop_first());
            assert(old(self).buffer@[(r + 0) % 128].is_some());
        }
        c
    }

    /// Number of keys waiting.
    pub fn len(&self) -> (r: usize)
        requires
            self.wf(),
        ensures
            r == self.contents().len(),
            r < BUFFER_SIZE,
    {
        let write = self.write_index;
        let read = self.read_index;
        if write >= read {
            write - read
        } else {
            BUFFER_SIZE - read + write
        }
    }
}

} // verus!
