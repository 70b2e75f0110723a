//! A fixed-capacity double buffer over a byte source.
//!
//! The buffer holds the two most recent chunks of the stream, one in each
//! half. The cursor walks forward through them; when it steps over the end of
//! the newest chunk the next chunk is read into the other half, over the older
//! one. The fence is the start of the older chunk: the cursor can be rolled
//! back as far as the fence and no further.
//!
//! The model of a buffer is the text delivered so far, each byte read as one
//! character, and three positions in it, counted from the start of the
//! stream: the cursor, the fence and the frontier, where the next chunk will
//! begin.

use vstd::prelude::*;
use crate::source::ByteSource;

verus! {

/// Why a call of the buffer failed.
#[derive(Debug)]
pub enum BufferError {
    /// The source failed; its error is passed on unchanged.
    IoError(std::io::Error),
    /// The token is too large: a rollback would have crossed the fence.
    RollBackError,
    /// No byte is left at the cursor.
    EndOfFile,
}

/// A buffer of `N` bytes over the source `R`. `N` is even.
pub struct Buffer<R: ByteSource, const N: usize> {
    input: R,
    half_buffer: usize,
    buffer: [u8; N],
    /// The cursor's slot.
    index: usize,
    /// The fence's slot.
    fence: usize,
    /// The slot behind the last byte of the newest chunk.
    eof: usize,
    /// Whether the cursor stands in the older chunk.
    rewound: bool,
    text: Ghost<Seq<char>>,
    /// Where the newest chunk begins in the stream.
    base: Ghost<nat>,
    cursor: Ghost<nat>,
}

/// The bytes of a chunk, each read as one character.
pub open spec fn decode(bytes: Seq<u8>) -> Seq<char> {
    bytes.map_values(|b: u8| b as char)
}

/// The smaller of two lengths.
pub open spec fn at_most(len: int, limit: int) -> int {
    if len < limit {
        len
    } else {
        limit
    }
}

/// Copies the first `n` bytes of `chunk` into the slots from `target` on.
fn copy_chunk<const N: usize>(buffer: &mut [u8; N], target: usize, chunk: &Vec<u8>, n: usize)
    requires
        target + n <= N,
        n <= chunk.len(),
    ensures
        forall|i: int| 0 <= i < n ==> final(buffer)@[target + i] == chunk@[i],
        forall|i: int| 0 <= i < N && !(target <= i < target + n) ==> final(buffer)@[i] == old(buffer)@[i],
{
    let mut i: usize = 0;
    while i < n
        invariant
            i <= n,
            target + n <= N,
            n <= chunk.len(),
            forall|j: int| 0 <= j < i ==> buffer@[target + j] == chunk@[j],
            forall|j: int| 0 <= j < N && !(target <= j < target + i) ==> buffer@[j] == old(buffer)@[j],
        decreases n - i,
    {
        buffer[target + i] = chunk[i];
        i += 1;
    }
}

impl<R: ByteSource, const N: usize> Buffer<R, N> {
    /// The slot where the newest chunk begins.
    spec fn head(&self) -> int {
        if self.rewound == (self.index < self.half_buffer) {
            self.half_buffer as int
        } else {
            0
        }
    }

    /// The slot where the older chunk begins.
    spec fn tail(&self) -> int {
        self.half_buffer - self.head()
    }

    /// The invariant of a buffer.
    pub closed spec fn wf(&self) -> bool {
        let half = self.half_buffer as int;
        let len = self.text@.len() as int;
        let base = self.base@ as int;
        let pos = self.cursor@ as int;
        &&& half >= 1
        &&& N == 2 * half
        &&& self.index < N
        &&& base == 0 || base >= half
        &&& base == 0 ==> self.head() == 0
        &&& base <= len <= base + half
        &&& self.eof == self.head() + (len - base)
        &&& !self.rewound ==> base <= pos && pos <= len && pos < base + half && self.index
            == self.head() + (pos - base)
        &&& self.rewound ==> base >= half && base - half <= pos && pos < base && self.index
            == self.tail() + (pos - (base - half))
        &&& self.fence == if base >= half {
            self.tail()
        } else {
            0
        }
        &&& forall|d: int|
            0 <= d < len - base ==> (#[trigger] self.buffer@[self.head() + d]) as char
                == self.text@[base + d]
        &&& base >= half ==> forall|d: int|
            0 <= d < half ==> (#[trigger] self.buffer@[self.tail() + d]) as char == self.text@[base
                - half + d]
    }

    /// The text delivered by the source so far.
    pub closed spec fn text(&self) -> Seq<char> {
        self.text@
    }

    /// The cursor: how many characters of the stream lie before it.
    pub closed spec fn position(&self) -> nat {
        self.cursor@
    }

    /// Where the next chunk will begin: the cursor causes a read when it
    /// steps onto the frontier.
    pub closed spec fn frontier(&self) -> nat {
        self.base@ + self.half_buffer as nat
    }

    /// The oldest position that the cursor can be rolled back to: the start
    /// of the older of the two chunks held.
    pub open spec fn fence_position(&self) -> nat {
        if self.frontier() >= N {
            (self.frontier() - N) as nat
        } else {
            0
        }
    }

    /// The source has delivered a short chunk: the text is complete.
    pub open spec fn exhausted(&self) -> bool {
        self.text().len() < self.frontier()
    }

    /// How the positions of a well-formed buffer lie.
    pub proof fn lemma_positions(&self)
        requires
            self.wf(),
        ensures
            N >= 2,
            N % 2 == 0,
            self.fence_position() <= self.position() <= self.text().len() <= self.frontier(),
            self.position() < self.frontier(),
            self.position() < self.fence_position() + N,
            self.frontier() >= N / 2,
            self.frontier() == N / 2 || self.frontier() >= N,
            self.frontier() <= self.text().len() + N / 2,
    {
    }

    /// How far the cursor can be rolled back: fewer characters than the
    /// capacity, and at least half the capacity where the cursor stands in
    /// the newest chunk, unless the fence is the start of the stream.
    pub proof fn lemma_rollback_room(&self)
        requires
            self.wf(),
        ensures
            self.position() - self.fence_position() < N,
            self.position() + N / 2 >= self.frontier() ==> self.fence_position() == 0
                || self.position() - self.fence_position() >= N / 2,
    {
    }

    /// Sets up a buffer over `input` with `chunk` as the first chunk read from
    /// it. Of a chunk longer than half the capacity only the first half
    /// capacity bytes are kept. An empty chunk is the end of the stream.
    pub fn with_chunk(input: R, chunk: &Vec<u8>) -> (r: Result<Self, BufferError>)
        requires
            N % 2 == 0,
        ensures
            match r {
                Ok(b) => {
                    &&& at_most(chunk@.len() as int, N as int / 2) > 0
                    &&& b.wf()
                    &&& b.text() == decode(chunk@.take(at_most(chunk@.len() as int, N as int / 2)))
                    &&& b.position() == 0
                    &&& b.frontier() == N / 2
                },
                Err(BufferError::EndOfFile) => at_most(chunk@.len() as int, N as int / 2) == 0,
                Err(_) => false,
            },
    {
        let half_buffer: usize = N / 2;
        let n: usize = if chunk.len() < half_buffer {
            chunk.len()
        } else {
            half_buffer
        };
        if n == 0 {
            return Err(BufferError::EndOfFile);
        }
        let mut buffer: [u8; N] = [0;N];
        copy_chunk(&mut buffer, 0, chunk, n);
        let b = Buffer {
            input,
            half_buffer,
            buffer,
            index: 0,
            fence: 0,
            eof: n,
            rewound: false,
            text: Ghost(decode(chunk@.take(n as int))),
            base: Ghost(0),
            cursor: Ghost(0),
        };
        Ok(b)
    }

    /// Reads the first chunk from `input`, up to half the capacity, and sets
    /// up the buffer over it. Fails with `EndOfFile` if the source delivers
    /// nothing, and with the source's error if the read fails.
    pub fn new(mut input: R) -> (r: Result<Self, BufferError>)
        requires
            N % 2 == 0,
        ensures
            match r {
                Ok(b) => {
                    &&& b.wf()
                    &&& 0 < b.text().len() <= N / 2
                    &&& b.position() == 0
                    &&& b.frontier() == N / 2
                },
                Err(BufferError::RollBackError) => false,
                Err(_) => true,
            },
    {
        match input.read_chunk(N / 2) {
            Ok(chunk) => Self::with_chunk(input, &chunk),
            Err(e) => Err(BufferError::IoError(e)),
        }
    }

    /// Moves the cursor one character back. Fails with `RollBackError` if the
    /// cursor stands at the fence.
    pub fn rollback(&mut self) -> (r: Result<(), BufferError>)
        requires
            old(self).wf(),
        ensures
            final(self).wf(),
            final(self).text() == old(self).text(),
            final(self).frontier() == old(self).frontier(),
            match r {
                Ok(()) => {
                    &&& old(self).position() > old(self).fence_position()
                    &&& final(self).position() == old(self).position() - 1
                },
                Err(BufferError::RollBackError) => {
                    &&& old(self).position() == old(self).fence_position()
                    &&& final(self).position() == old(self).position()
                },
                Err(_) => false,
            },
    {
        if self.index == self.fence {
            return Err(BufferError::RollBackError);
        }
        if !self.rewound && (self.index == 0 || self.index == self.half_buffer) {
            self.rewound = true;
        }
        if self.index == 0 {
            self.index = N - 1;
        } else {
            self.index -= 1;
        }
        self.cursor = Ghost((self.cursor@ - 1) as nat);
        Ok(())
    }

    /// The character at the cursor, or `None` at the end of the text.
    pub fn peek(&mut self) -> (r: Option<char>)
        requires
            old(self).wf(),
        ensures
            *final(self) == *old(self),
            r == if old(self).position() < old(self).text().len() {
                Some(old(self).text()[old(self).position() as int])
            } else {
                None
            },
    {
        if !self.rewound && self.index == self.eof {
            return None;
        }
        proof {
            self.lemma_slot();
        }
        Some(self.buffer[self.index] as char)
    }

    /// The cursor's slot holds the character at the cursor.
    proof fn lemma_slot(&self)
        requires
            self.wf(),
            self.cursor@ < self.text@.len(),
        ensures
            self.buffer@[self.index as int] as char == self.text@[self.cursor@ as int],
    {
        if self.rewound {
            let d = self.cursor@ - (self.base@ - self.half_buffer);
            assert(self.buffer@[self.tail() + d] as char == self.text@[self.base@ - self.half_buffer
                + d]);
        } else {
            let d = self.cursor@ - self.base@;
            assert(self.buffer@[self.head() + d] as char == self.text@[self.base@ + d]);
        }
    }

    /// Takes `chunk` as the next chunk of the stream and stores it in the half
    /// that holds the older chunk. The fence moves up to the start of what was
    /// the newest chunk. Of a chunk longer than half the capacity only the
    /// first half capacity bytes are kept.
    ///
    /// The newest chunk must be full and the cursor must stand in it.
    pub fn load(&mut self, chunk: &Vec<u8>)
        requires
            old(self).wf(),
            old(self).text().len() == old(self).frontier(),
            old(self).position() + N / 2 >= old(self).frontier(),
        ensures
            final(self).wf(),
            final(self).text() == old(self).text() + decode(
                chunk@.take(at_most(chunk@.len() as int, N as int / 2)),
            ),
            final(self).position() == old(self).position(),
            final(self).frontier() == old(self).frontier() + N / 2,
    {
        let n: usize = if chunk.len() < self.half_buffer {
            chunk.len()
        } else {
            self.half_buffer
        };
        let head: usize = if self.index < self.half_buffer {
            0
        } else {
            self.half_buffer
        };
        let target: usize = self.half_buffer - head;
        let ghost before = *self;
        copy_chunk(&mut self.buffer, target, chunk, n);
        self.fence = head;
        self.eof = target + n;
        self.rewound = true;
        self.base = Ghost(self.base@ + self.half_buffer as nat);
        self.text = Ghost(self.text@ + decode(chunk@.take(n as int)));
        proof {
            let half = self.half_buffer as int;
            let base = self.base@ as int;
            assert(self.head() == target);
            assert(self.tail() == head);
            assert forall|d: int| 0 <= d < self.text@.len() - base implies (
            #[trigger] self.buffer@[self.head() + d]) as char == self.text@[base + d] by {
                assert(self.buffer@[target + d] == chunk@[d]);
            }
            assert forall|d: int| 0 <= d < half implies (#[trigger] self.buffer@[self.tail() + d]) as char
                == self.text@[base - half + d] by {
                assert(before.buffer@[before.head() + d] as char == before.text@[before.base@ + d]);
            }
        }
    }

    /// The character at the cursor; the cursor moves one character on. At the
    /// end of the text it fails with `EndOfFile`, and no read is made. When
    /// the cursor steps onto the frontier, the next chunk is read from the
    /// source into the other half first; if that read fails, its error is
    /// returned and the buffer is as before.
    pub fn get_next_char(&mut self) -> (r: Result<char, BufferError>)
        requires
            old(self).wf(),
        ensures
            final(self).wf(),
            match r {
                Ok(c) => {
                    &&& old(self).position() < old(self).text().len()
                    &&& c == old(self).text()[old(self).position() as int]
                    &&& final(self).position() == old(self).position() + 1
                    &&& old(self).text().is_prefix_of(final(self).text())
                    &&& if old(self).position() + 1 == old(self).frontier() {
                        &&& final(self).frontier() == old(self).frontier() + N / 2
                        &&& final(self).text().len() <= old(self).text().len() + N / 2
                    } else {
                        &&& final(self).frontier() == old(self).frontier()
                        &&& final(self).text() == old(self).text()
                    }
                },
                Err(e) => {
                    &&& final(self).text() == old(self).text()
                    &&& final(self).position() == old(self).position()
                    &&& final(self).frontier() == old(self).frontier()
                    &&& match e {
                        BufferError::EndOfFile => old(self).position() == old(self).text().len(),
                        BufferError::IoError(_) => {
                            &&& old(self).position() < old(self).text().len()
                            &&& old(self).position() + 1 == old(self).frontier()
                        },
                        BufferError::RollBackError => false,
                    }
                },
            },
            old(self).position() == old(self).text().len() ==> r matches Err(
                BufferError::EndOfFile,
            ),
    {
        if !self.rewound && self.index == self.eof {
            return Err(BufferError::EndOfFile);
        }
        proof {
            self.lemma_slot();
        }
        let next_ch: u8 = self.buffer[self.index];
        if !self.rewound && (self.index + 1 == N || self.index + 1 == self.half_buffer) {
            match self.input.read_chunk(self.half_buffer) {
                Ok(chunk) => {
                    self.load(&chunk);
                },
                Err(e) => {
                    return Err(BufferError::IoError(e));
                },
            }
        }
        let next: usize = if self.index + 1 == N {
            0
        } else {
            self.index + 1
        };
        self.index = next;
        if next == 0 || next == self.half_buffer {
            self.rewound = false;
        }
        self.cursor = Ghost(self.cursor@ + 1);
        Ok(next_ch as char)
    }
}

} // verus!
