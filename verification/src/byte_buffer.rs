use crate::byte_order::{be_bytes, be_bytes_u32, be_value, read_be_u16, read_be_u32};
use crate::error::KbinError;
use crate::strings::{append_bytes, copy_range};
use vstd::prelude::*;

verus! {

/// The least multiple of four that is not below `n`.
pub open spec fn align4(n: nat) -> nat {
    if n % 4 == 0 {
        n
    } else {
        (n + 4 - n % 4) as nat
    }
}

/// `n` bytes that are all zero.
pub open spec fn zeros(n: nat) -> Seq<u8> {
    Seq::new(n, |i: int| 0u8)
}

/// The three positions from which a data section is read.
///
/// Values of one byte are read at `c1`, values of two bytes at `c2`, and all
/// others at `c4`, which is always a multiple of four. A narrow position
/// stays within the word it was last moved to, so that up to four single
/// bytes, or two pairs, share one word.
pub struct Cursors {
    /// Where the next single byte is read.
    pub c1: nat,
    /// Where the next pair of bytes is read.
    pub c2: nat,
    /// Where everything else is read; the position of the section as a whole.
    pub c4: nat,
}

impl Cursors {
    /// The positions before anything is read.
    pub open spec fn start() -> Cursors {
        Cursors { c1: 0, c2: 0, c4: 0 }
    }

    /// What holds of the positions between any two reads.
    pub open spec fn wf(self) -> bool {
        &&& self.c1 <= self.c4
        &&& self.c2 <= self.c4
        &&& self.c2 % 2 == 0
        &&& self.c4 % 4 == 0
    }

    /// Reads a value of `width` bytes, one or two, at its narrow position.
    ///
    /// A narrow position that stands at the start of a word has used its word
    /// up and moves to the main position first. The main position moves on,
    /// to the next multiple of four, only where the read went beyond it.
    pub open spec fn read_narrow(self, data: Seq<u8>, width: nat) -> Result<
        (Seq<u8>, Cursors),
        KbinError,
    > {
        let mine = if width == 1 {
            self.c1
        } else {
            self.c2
        };
        let at = if mine % 4 == 0 {
            self.c4
        } else {
            mine
        };
        if at + width > data.len() {
            Err(KbinError::DataRead { size: width as usize })
        } else {
            let c1 = if width == 1 {
                at + 1
            } else {
                self.c1
            };
            let c2 = if width == 1 {
                self.c2
            } else {
                at + 2
            };
            let top = if c1 >= c2 {
                c1
            } else {
                c2
            };
            let c4 = if self.c4 < top {
                align4(top)
            } else {
                self.c4
            };
            Ok((data.subrange(at as int, (at + width) as int), Cursors { c1, c2, c4 }))
        }
    }

    /// Reads one byte at the position for single bytes.
    pub open spec fn read_u8(self, data: Seq<u8>) -> Result<(u8, Cursors), KbinError> {
        match self.read_narrow(data, 1) {
            Ok((bytes, next)) => Ok((bytes[0], next)),
            Err(e) => Err(e),
        }
    }

    /// Reads a big-endian number of two bytes at the position for pairs.
    pub open spec fn read_u16(self, data: Seq<u8>) -> Result<(u16, Cursors), KbinError> {
        match self.read_narrow(data, 2) {
            Ok((bytes, next)) => Ok((be_value(bytes) as u16, next)),
            Err(e) => Err(e),
        }
    }

    /// Reads `n` bytes at the main position, which then moves past them to the
    /// next multiple of four.
    pub open spec fn read_sized(self, data: Seq<u8>, n: nat) -> Result<
        (Seq<u8>, Cursors),
        KbinError,
    > {
        if self.c4 + n > data.len() {
            Err(KbinError::DataRead { size: n as usize })
        } else {
            Ok(
                (
                    data.subrange(self.c4 as int, (self.c4 + n) as int),
                    Cursors { c1: self.c1, c2: self.c2, c4: align4(self.c4 + n) },
                ),
            )
        }
    }

    /// Reads a big-endian number of four bytes at the main position.
    pub open spec fn read_u32(self, data: Seq<u8>) -> Result<(u32, Cursors), KbinError> {
        match self.read_sized(data, 4) {
            Ok((bytes, next)) => Ok((be_value(bytes) as u32, next)),
            Err(e) => Err(e),
        }
    }

    /// Reads a value of `size` bytes where values of that size are read.
    ///
    /// There is no value of no bytes: to ask for one is a misuse.
    pub open spec fn read_aligned(self, data: Seq<u8>, size: nat) -> Result<
        (Seq<u8>, Cursors),
        KbinError,
    > {
        if size == 0 {
            Err(KbinError::InvalidState)
        } else if size == 1 || size == 2 {
            self.read_narrow(data, size)
        } else {
            self.read_sized(data, size)
        }
    }

    /// Reads a length of four bytes at the main position, and then as many bytes as it says.
    pub open spec fn read_length_prefixed(self, data: Seq<u8>) -> Result<
        (Seq<u8>, Cursors),
        KbinError,
    > {
        match self.read_u32(data) {
            Ok((n, next)) => next.read_sized(data, n as nat),
            Err(e) => Err(e),
        }
    }
}

/// Rounding up to a multiple of four gives a multiple of four, at most three further on.
pub proof fn lemma_align4(n: nat)
    ensures
        align4(n) % 4 == 0,
        n <= align4(n) <= n + 3,
{
}

/// A narrow read leaves the main position on a multiple of four and the narrow
/// positions behind it.
pub proof fn lemma_read_narrow_keeps_alignment(c: Cursors, data: Seq<u8>, width: nat)
    requires
        c.wf(),
        width == 1 || width == 2,
    ensures
        c.read_narrow(data, width) matches Ok((_, next)) ==> next.wf(),
{
    let mine = if width == 1 {
        c.c1
    } else {
        c.c2
    };
    let at = if mine % 4 == 0 {
        c.c4
    } else {
        mine
    };
    let c1 = if width == 1 {
        at + 1
    } else {
        c.c1
    };
    let c2 = if width == 1 {
        c.c2
    } else {
        at + 2
    };
    let top = if c1 >= c2 {
        c1
    } else {
        c2
    };
    lemma_align4(top as nat);
}

/// A read at the main position leaves it on a multiple of four and the narrow
/// positions behind it.
pub proof fn lemma_read_sized_keeps_alignment(c: Cursors, data: Seq<u8>, n: nat)
    requires
        c.wf(),
    ensures
        c.read_sized(data, n) matches Ok((_, next)) ==> next.wf(),
{
    lemma_align4(c.c4 + n);
}

/// Every read leaves the main position on a multiple of four and the narrow
/// positions behind it.
pub proof fn lemma_reads_keep_alignment(c: Cursors, data: Seq<u8>, n: nat)
    requires
        c.wf(),
    ensures
        c.read_u8(data) matches Ok((_, next)) ==> next.wf(),
        c.read_u16(data) matches Ok((_, next)) ==> next.wf(),
        c.read_u32(data) matches Ok((_, next)) ==> next.wf(),
        c.read_aligned(data, n) matches Ok((_, next)) ==> next.wf(),
        c.read_length_prefixed(data) matches Ok((_, next)) ==> next.wf(),
{
    lemma_read_narrow_keeps_alignment(c, data, 1);
    lemma_read_narrow_keeps_alignment(c, data, 2);
    lemma_read_sized_keeps_alignment(c, data, n);
    lemma_read_sized_keeps_alignment(c, data, 4);
    match c.read_u32(data) {
        Ok((len, next)) => {
            lemma_read_sized_keeps_alignment(next, data, len as nat);
        },
        Err(_) => {},
    }
}

/// A data section that is being read.
///
/// The section and the three positions are kept together, and nothing but the
/// reads below moves a position.
pub struct ByteBufferRead {
    data: Vec<u8>,
    offset_1: usize,
    offset_2: usize,
    position: usize,
}

impl ByteBufferRead {
    /// The bytes of the section.
    pub closed spec fn data(&self) -> Seq<u8> {
        self.data@
    }

    /// The positions at which the next reads take place.
    pub closed spec fn cursors(&self) -> Cursors {
        Cursors { c1: self.offset_1 as nat, c2: self.offset_2 as nat, c4: self.position as nat }
    }

    /// What holds of the buffer between any two reads.
    pub open spec fn wf(&self) -> bool {
        &&& self.cursors().wf()
        &&& self.cursors().c4 <= align4(self.data().len())
        &&& self.data().len() + 4 <= usize::MAX
    }

    /// A buffer over `data`, with all positions at its start.
    pub fn new(data: Vec<u8>) -> (r: Self)
        requires
            data@.len() + 4 <= usize::MAX,
        ensures
            r.wf(),
            r.data() == data@,
            r.cursors() == Cursors::start(),
    {
        ByteBufferRead { data, offset_1: 0, offset_2: 0, position: 0 }
    }

    /// Whether the buffer is in order, as every buffer is that `new` made and
    /// the reads below moved.
    pub fn in_order(&self) -> (r: bool)
        ensures
            r == self.wf(),
    {
        if self.data.len() > usize::MAX - 4 {
            return false;
        }
        self.offset_1 <= self.position && self.offset_2 <= self.position && self.offset_2 % 2 == 0
            && self.position % 4 == 0 && self.position <= Self::realign(self.data.len())
    }

    /// The main position: how far the section has been read.
    pub fn position(&self) -> (r: usize)
        ensures
            r == self.cursors().c4,
    {
        self.position
    }

    /// Moves the main position to the next multiple of four, if it is not on one.
    fn realign(at: usize) -> (r: usize)
        requires
            at + 3 <= usize::MAX,
        ensures
            r == align4(at as nat),
    {
        if at % 4 == 0 {
            at
        } else {
            at + (4 - at % 4)
        }
    }

    /// Reads a value of `width` bytes, one or two, at its narrow position.
    fn read_narrow(&mut self, width: usize) -> (r: Result<Vec<u8>, KbinError>)
        requires
            old(self).wf(),
            width == 1 || width == 2,
        ensures
            final(self).wf(),
            final(self).data() == old(self).data(),
            match old(self).cursors().read_narrow(old(self).data(), width as nat) {
                Ok((bytes, next)) => r is Ok && r->Ok_0@ == bytes && final(self).cursors() == next,
                Err(e) => r == Err::<Vec<u8>, KbinError>(e) && final(self).cursors()
                    == old(self).cursors(),
            },
    {
        let mine = if width == 1 {
            self.offset_1
        } else {
            self.offset_2
        };
        let at = if mine % 4 == 0 {
            self.position
        } else {
            mine
        };
        if at > self.data.len() || self.data.len() - at < width {
            return Err(KbinError::DataRead { size: width });
        }
        let bytes = copy_range(self.data.as_slice(), at, at + width);
        if width == 1 {
            self.offset_1 = at + 1;
        } else {
            self.offset_2 = at + 2;
        }
        let top = if self.offset_1 >= self.offset_2 {
            self.offset_1
        } else {
            self.offset_2
        };
        if self.position < top {
            self.position = Self::realign(top);
        }
        proof {
            lemma_align4(top as nat);
        }
        Ok(bytes)
    }

    /// Reads one byte at the position for single bytes.
    pub fn read_u8(&mut self) -> (r: Result<u8, KbinError>)
        requires
            old(self).wf(),
        ensures
            final(self).wf(),
            final(self).data() == old(self).data(),
            match old(self).cursors().read_u8(old(self).data()) {
                Ok((b, next)) => r == Ok::<u8, KbinError>(b) && final(self).cursors() == next,
                Err(e) => r == Err::<u8, KbinError>(e) && final(self).cursors()
                    == old(self).cursors(),
            },
    {
        match self.read_narrow(1) {
            Ok(bytes) => Ok(bytes[0]),
            Err(e) => Err(e),
        }
    }

    /// Reads a big-endian number of two bytes at the position for pairs.
    pub fn read_u16(&mut self) -> (r: Result<u16, KbinError>)
        requires
            old(self).wf(),
        ensures
            final(self).wf(),
            final(self).data() == old(self).data(),
            match old(self).cursors().read_u16(old(self).data()) {
                Ok((v, next)) => r == Ok::<u16, KbinError>(v) && final(self).cursors() == next,
                Err(e) => r == Err::<u16, KbinError>(e) && final(self).cursors()
                    == old(self).cursors(),
            },
    {
        match self.read_narrow(2) {
            Ok(bytes) => {
                proof {
                    assert(bytes@.subrange(0, 2) == bytes@);
                }
                Ok(read_be_u16(bytes.as_slice(), 0))
            },
            Err(e) => Err(e),
        }
    }

    /// Reads `n` bytes at the main position, which then moves past them to the
    /// next multiple of four.
    pub fn read_sized(&mut self, n: usize) -> (r: Result<Vec<u8>, KbinError>)
        requires
            old(self).wf(),
        ensures
            final(self).wf(),
            final(self).data() == old(self).data(),
            match old(self).cursors().read_sized(old(self).data(), n as nat) {
                Ok((bytes, next)) => r is Ok && r->Ok_0@ == bytes && final(self).cursors() == next,
                Err(e) => r == Err::<Vec<u8>, KbinError>(e) && final(self).cursors()
                    == old(self).cursors(),
            },
    {
        let at = self.position;
        if at > self.data.len() || self.data.len() - at < n {
            return Err(KbinError::DataRead { size: n });
        }
        let bytes = copy_range(self.data.as_slice(), at, at + n);
        self.position = Self::realign(at + n);
        proof {
            lemma_align4((at + n) as nat);
        }
        Ok(bytes)
    }

    /// Reads a big-endian number of four bytes at the main position.
    pub fn read_u32(&mut self) -> (r: Result<u32, KbinError>)
        requires
            old(self).wf(),
        ensures
            final(self).wf(),
            final(self).data() == old(self).data(),
            match old(self).cursors().read_u32(old(self).data()) {
                Ok((v, next)) => r == Ok::<u32, KbinError>(v) && final(self).cursors() == next,
                Err(e) => r == Err::<u32, KbinError>(e) && final(self).cursors()
                    == old(self).cursors(),
            },
    {
        match self.read_sized(4) {
            Ok(bytes) => {
                proof {
                    assert(bytes@.subrange(0, 4) == bytes@);
                }
                Ok(read_be_u32(bytes.as_slice(), 0))
            },
            Err(e) => Err(e),
        }
    }

    /// Reads a value of `size` bytes where values of that size are read.
    pub fn read_aligned(&mut self, size: usize) -> (r: Result<Vec<u8>, KbinError>)
        requires
            old(self).wf(),
        ensures
            final(self).wf(),
            final(self).data() == old(self).data(),
            match old(self).cursors().read_aligned(old(self).data(), size as nat) {
                Ok((bytes, next)) => r is Ok && r->Ok_0@ == bytes && final(self).cursors() == next,
                Err(e) => r == Err::<Vec<u8>, KbinError>(e) && final(self).cursors()
                    == old(self).cursors(),
            },
    {
        if size == 0 {
            Err(KbinError::InvalidState)
        } else if size == 1 || size == 2 {
            self.read_narrow(size)
        } else {
            self.read_sized(size)
        }
    }

    /// Reads a length of four bytes at the main position, and then as many bytes as it says.
    ///
    /// Where the bytes are not there, nothing is read, the length neither.
    pub fn read_length_prefixed(&mut self) -> (r: Result<Vec<u8>, KbinError>)
        requires
            old(self).wf(),
        ensures
            final(self).wf(),
            final(self).data() == old(self).data(),
            match old(self).cursors().read_length_prefixed(old(self).data()) {
                Ok((bytes, next)) => r is Ok && r->Ok_0@ == bytes && final(self).cursors() == next,
                Err(e) => r == Err::<Vec<u8>, KbinError>(e) && final(self).cursors()
                    == old(self).cursors(),
            },
    {
        let before = self.position;
        match self.read_u32() {
            Ok(n) => {
                match self.read_sized(n as usize) {
                    Ok(bytes) => Ok(bytes),
                    Err(e) => {
                        self.position = before;
                        Err(e)
                    },
                }
            },
            Err(e) => Err(e),
        }
    }
}

/// A data section that is being written: its bytes so far and the two narrow positions.
///
/// The main position is the end of the bytes, which is always a multiple of four.
pub struct WriteState {
    /// The bytes written so far, padding included.
    pub data: Seq<u8>,
    /// Where the next single byte is written.
    pub c1: nat,
    /// Where the next pair of bytes is written.
    pub c2: nat,
}

impl WriteState {
    /// The state before anything is written.
    pub open spec fn start() -> WriteState {
        WriteState { data: Seq::empty(), c1: 0, c2: 0 }
    }

    /// What holds of the state between any two writes.
    ///
    /// Besides the alignment, the two narrow positions never stand inside the
    /// same word.
    pub open spec fn wf(self) -> bool {
        &&& self.data.len() % 4 == 0
        &&& self.c1 <= self.data.len()
        &&& self.c2 <= self.data.len()
        &&& self.c2 % 2 == 0
        &&& (self.c1 % 4 != 0 && self.c2 % 4 != 0 ==> self.c1 / 4 != self.c2 / 4)
    }

    /// The positions at which a reader stands that has read all that was written.
    pub open spec fn cursors(self) -> Cursors {
        Cursors { c1: self.c1, c2: self.c2, c4: self.data.len() }
    }

    /// Writes a value of one or two bytes at its narrow position.
    ///
    /// A narrow position that stands at the start of a word has used its word
    /// up: the value then opens a new word at the end, padded with zeros.
    /// Otherwise it takes the place of padding in the word of its position.
    pub open spec fn write_narrow(self, bytes: Seq<u8>) -> WriteState {
        let width = bytes.len();
        let mine = if width == 1 {
            self.c1
        } else {
            self.c2
        };
        let at = if mine % 4 == 0 {
            self.data.len()
        } else {
            mine
        };
        let data = if mine % 4 == 0 {
            self.data + bytes + zeros((4 - width) as nat)
        } else {
            self.data.take(at as int) + bytes + self.data.skip((at + width) as int)
        };
        WriteState {
            data,
            c1: if width == 1 {
                at + 1
            } else {
                self.c1
            },
            c2: if width == 1 {
                self.c2
            } else {
                at + 2
            },
        }
    }

    /// Writes `bytes` at the end, and zeros after them up to the next multiple of four.
    pub open spec fn write_sized(self, bytes: Seq<u8>) -> WriteState {
        let end = self.data.len() + bytes.len();
        WriteState {
            data: self.data + bytes + zeros((align4(end) - end) as nat),
            c1: self.c1,
            c2: self.c2,
        }
    }

    /// Writes a value where values of its size are written.
    ///
    /// There is no value of no bytes: to write one is a misuse.
    pub open spec fn write_aligned(self, bytes: Seq<u8>) -> Result<WriteState, KbinError> {
        if bytes.len() == 0 {
            Err(KbinError::InvalidState)
        } else if bytes.len() == 1 || bytes.len() == 2 {
            Ok(self.write_narrow(bytes))
        } else {
            Ok(self.write_sized(bytes))
        }
    }

    /// Writes the number of `bytes` in four bytes, and then `bytes`, both at the end.
    ///
    /// The number must fit into its four bytes.
    pub open spec fn write_length_prefixed(self, bytes: Seq<u8>, node_type: &'static str)
        -> Result<WriteState, KbinError> {
        if bytes.len() > u32::MAX {
            Err(KbinError::DataWrite { node_type })
        } else {
            Ok(self.write_sized(be_bytes(bytes.len(), 4)).write_sized(bytes))
        }
    }

    /// Whether position `p` holds padding that a narrow value may still replace.
    pub open spec fn open_slot(self, p: int) -> bool {
        ||| self.c1 % 4 != 0 && self.c1 <= p < align4(self.c1)
        ||| self.c2 % 4 != 0 && self.c2 <= p < align4(self.c2)
    }

    /// Whether `later` holds everything that has been written so far: all
    /// bytes but the padding that narrow values may still replace.
    pub open spec fn kept_in(self, later: Seq<u8>) -> bool {
        &&& later.len() >= self.data.len()
        &&& forall|p: int|
            0 <= p < self.data.len() && !self.open_slot(p) ==> later[p] == self.data[p]
    }
}

/// A narrow write leaves the end of the section on a multiple of four and the
/// narrow positions behind it, in words of their own.
pub proof fn lemma_write_narrow_keeps_alignment(w: WriteState, bytes: Seq<u8>)
    requires
        w.wf(),
        bytes.len() == 1 || bytes.len() == 2,
    ensures
        w.write_narrow(bytes).wf(),
{
    let next = w.write_narrow(bytes);
    let len = w.data.len();
    let mine = if bytes.len() == 1 {
        w.c1
    } else {
        w.c2
    };
    if mine % 4 == 0 {
        assert(next.data.len() == len + 4);
        assert((len + 1) / 4 == len / 4);
        assert((len + 2) / 4 == len / 4);
        assert(w.c1 % 4 != 0 ==> w.c1 / 4 < len / 4);
        assert(w.c2 % 4 != 0 ==> w.c2 / 4 < len / 4);
    } else {
        assert(mine < len);
        assert(next.data.len() == len);
        if bytes.len() == 1 {
            assert((mine + 1) % 4 != 0 ==> (mine + 1) / 4 == mine / 4);
        } else {
            assert(mine % 4 == 2);
            assert((mine + 2) % 4 == 0);
        }
    }
}

/// A write at the end leaves the end of the section on a multiple of four and
/// the narrow positions as they were.
pub proof fn lemma_write_sized_keeps_alignment(w: WriteState, bytes: Seq<u8>)
    requires
        w.wf(),
    ensures
        w.write_sized(bytes).wf(),
        w.write_sized(bytes).data.len() == align4(w.data.len() + bytes.len()),
{
    lemma_align4(w.data.len() + bytes.len());
}

/// Every write leaves the end of the section on a multiple of four and the
/// narrow positions behind it, in words of their own.
pub proof fn lemma_writes_keep_alignment(w: WriteState, bytes: Seq<u8>)
    requires
        w.wf(),
    ensures
        bytes.len() == 1 || bytes.len() == 2 ==> w.write_narrow(bytes).wf(),
        w.write_sized(bytes).wf(),
        w.write_aligned(bytes) matches Ok(next) ==> next.wf(),
        forall|t: &'static str| #[trigger]
            w.write_length_prefixed(bytes, t) matches Ok(next) ==> next.wf(),
{
    if bytes.len() == 1 || bytes.len() == 2 {
        lemma_write_narrow_keeps_alignment(w, bytes);
    }
    lemma_write_sized_keeps_alignment(w, bytes);
    let first = w.write_sized(be_bytes(bytes.len(), 4));
    lemma_write_sized_keeps_alignment(w, be_bytes(bytes.len(), 4));
    lemma_write_sized_keeps_alignment(first, bytes);
}

/// A narrow value that was written is read back, and the reader then stands
/// where the writer stood, whatever was written afterwards.
pub proof fn lemma_read_back_narrow(w: WriteState, bytes: Seq<u8>, later: Seq<u8>)
    requires
        w.wf(),
        bytes.len() == 1 || bytes.len() == 2,
        w.write_narrow(bytes).kept_in(later),
    ensures
        w.cursors().read_narrow(later, bytes.len()) == Ok::<(Seq<u8>, Cursors), KbinError>(
            (bytes, w.write_narrow(bytes).cursors()),
        ),
        w.kept_in(later),
{
    let next = w.write_narrow(bytes);
    let width = bytes.len();
    let mine = if width == 1 {
        w.c1
    } else {
        w.c2
    };
    let at = if mine % 4 == 0 {
        w.data.len()
    } else {
        mine
    };
    assert forall|k: int| 0 <= k < width implies later[at + k] == bytes[k] by {
        assert(!next.open_slot(at + k));
        assert(next.data[at + k] == bytes[k]);
    }
    assert(later.subrange(at as int, (at + width) as int) == bytes);
    assert forall|p: int| 0 <= p < w.data.len() && !w.open_slot(p) implies later[p]
        == w.data[p] by {
        assert(!next.open_slot(p));
        assert(next.data[p] == w.data[p]);
    }
}

/// A value that was written at the end is read back, and the reader then
/// stands where the writer stood, whatever was written afterwards.
pub proof fn lemma_read_back_sized(w: WriteState, bytes: Seq<u8>, later: Seq<u8>)
    requires
        w.wf(),
        w.write_sized(bytes).kept_in(later),
    ensures
        w.cursors().read_sized(later, bytes.len()) == Ok::<(Seq<u8>, Cursors), KbinError>(
            (bytes, w.write_sized(bytes).cursors()),
        ),
        w.kept_in(later),
{
    let next = w.write_sized(bytes);
    let at = w.data.len();
    lemma_align4(at + bytes.len());
    assert forall|k: int| 0 <= k < bytes.len() implies later[at + k] == bytes[k] by {
        assert(!next.open_slot(at + k));
        assert(next.data[at + k] == bytes[k]);
    }
    assert(later.subrange(at as int, (at + bytes.len()) as int) == bytes);
    assert forall|p: int| 0 <= p < w.data.len() && !w.open_slot(p) implies later[p]
        == w.data[p] by {
        assert(!next.open_slot(p));
        assert(next.data[p] == w.data[p]);
    }
}

/// A length and the bytes that were written behind it are read back, and the
/// reader then stands where the writer stood, whatever was written afterwards.
pub proof fn lemma_read_back_length_prefixed(
    w: WriteState,
    bytes: Seq<u8>,
    node_type: &'static str,
    later: Seq<u8>,
)
    requires
        w.wf(),
        bytes.len() <= u32::MAX,
        w.write_length_prefixed(bytes, node_type)->Ok_0.kept_in(later),
    ensures
        w.cursors().read_length_prefixed(later) == Ok::<(Seq<u8>, Cursors), KbinError>(
            (bytes, w.write_length_prefixed(bytes, node_type)->Ok_0.cursors()),
        ),
        w.kept_in(later),
{
    let prefix = be_bytes(bytes.len(), 4);
    let first = w.write_sized(prefix);
    crate::byte_order::lemma_be_bytes_len(bytes.len(), 4);
    crate::byte_order::lemma_pow256_values();
    crate::byte_order::lemma_be_value_of_bytes(bytes.len(), 4);
    lemma_writes_keep_alignment(w, prefix);
    lemma_read_back_sized(first, bytes, later);
    lemma_read_back_sized(w, prefix, later);
}

/// The values of a data section, in the order in which they are written.
pub enum Chunk {
    /// A value of known size, written where values of its size are written.
    Aligned(Seq<u8>),
    /// Bytes of any number, written behind their length.
    Prefixed(Seq<u8>),
}

impl Chunk {
    /// Whether the chunk can be written.
    pub open spec fn writable(self) -> bool {
        match self {
            Chunk::Aligned(bytes) => bytes.len() > 0,
            Chunk::Prefixed(bytes) => bytes.len() <= u32::MAX,
        }
    }

    /// The state after the chunk has been written.
    pub open spec fn write(self, w: WriteState) -> WriteState {
        match self {
            Chunk::Aligned(bytes) => w.write_aligned(bytes)->Ok_0,
            Chunk::Prefixed(bytes) => w.write_sized(be_bytes(bytes.len(), 4)).write_sized(bytes),
        }
    }

    /// Reads a chunk of the same shape as this one: the same size where the size is known.
    pub open spec fn read_alike(self, c: Cursors, data: Seq<u8>) -> Result<
        (Seq<u8>, Cursors),
        KbinError,
    > {
        match self {
            Chunk::Aligned(bytes) => c.read_aligned(data, bytes.len()),
            Chunk::Prefixed(_) => c.read_length_prefixed(data),
        }
    }

    /// The bytes of the chunk.
    pub open spec fn bytes(self) -> Seq<u8> {
        match self {
            Chunk::Aligned(bytes) => bytes,
            Chunk::Prefixed(bytes) => bytes,
        }
    }
}

/// The state after all of `chunks` have been written, in order.
pub open spec fn write_all(w: WriteState, chunks: Seq<Chunk>) -> WriteState
    decreases chunks.len(),
{
    if chunks.len() == 0 {
        w
    } else {
        write_all(chunks[0].write(w), chunks.skip(1))
    }
}

/// Whether reading chunks of the shapes of `chunks` from `data`, in order,
/// gives the bytes of `chunks` and ends at `end`.
pub open spec fn reads_back(c: Cursors, data: Seq<u8>, chunks: Seq<Chunk>, end: Cursors) -> bool
    decreases chunks.len(),
{
    if chunks.len() == 0 {
        c == end
    } else {
        match chunks[0].read_alike(c, data) {
            Ok((bytes, next)) => bytes == chunks[0].bytes() && reads_back(
                next,
                data,
                chunks.skip(1),
                end,
            ),
            Err(_) => false,
        }
    }
}

/// Writing keeps the state well-formed.
pub proof fn lemma_write_all_wf(w: WriteState, chunks: Seq<Chunk>)
    requires
        w.wf(),
        forall|i: int| 0 <= i < chunks.len() ==> (#[trigger] chunks[i]).writable(),
    ensures
        write_all(w, chunks).wf(),
    decreases chunks.len(),
{
    if chunks.len() > 0 {
        assert(chunks[0].writable());
        lemma_writes_keep_alignment(w, chunks[0].bytes());
        lemma_writes_keep_alignment(w, be_bytes(chunks[0].bytes().len(), 4));
        lemma_writes_keep_alignment(
            w.write_sized(be_bytes(chunks[0].bytes().len(), 4)),
            chunks[0].bytes(),
        );
        let rest = chunks.skip(1);
        assert forall|i: int| 0 <= i < rest.len() implies (#[trigger] rest[i]).writable() by {
            assert(rest[i] == chunks[i + 1]);
        }
        lemma_write_all_wf(chunks[0].write(w), rest);
    }
}

/// Whatever is written after a state is reached keeps what the state holds.
proof fn lemma_read_back_from(w: WriteState, chunks: Seq<Chunk>, later: Seq<u8>)
    requires
        w.wf(),
        forall|i: int| 0 <= i < chunks.len() ==> (#[trigger] chunks[i]).writable(),
        write_all(w, chunks).kept_in(later),
    ensures
        reads_back(w.cursors(), later, chunks, write_all(w, chunks).cursors()),
        w.kept_in(later),
    decreases chunks.len(),
{
    if chunks.len() > 0 {
        let first = chunks[0];
        let rest = chunks.skip(1);
        assert(first.writable());
        assert forall|i: int| 0 <= i < rest.len() implies (#[trigger] rest[i]).writable() by {
            assert(rest[i] == chunks[i + 1]);
        }
        let w1 = first.write(w);
        lemma_write_all_wf(w, seq![first]);
        assert(seq![first].skip(1) == Seq::<Chunk>::empty());
        assert(write_all(w1, seq![first].skip(1)) == w1);
        assert(w1.wf());
        lemma_read_back_from(w1, rest, later);
        match first {
            Chunk::Aligned(bytes) => {
                if bytes.len() == 1 || bytes.len() == 2 {
                    lemma_read_back_narrow(w, bytes, later);
                } else {
                    lemma_read_back_sized(w, bytes, later);
                }
            },
            Chunk::Prefixed(bytes) => {
                lemma_read_back_length_prefixed(w, bytes, "", later);
            },
        }
    }
}

/// What a writer wrote, a reader reads back: reading values of the same
/// shapes, in the same order, from the section that the writes produced gives
/// the values that were written, and the reader ends where the writer ended.
pub proof fn lemma_stream_round_trip(chunks: Seq<Chunk>)
    requires
        forall|i: int| 0 <= i < chunks.len() ==> (#[trigger] chunks[i]).writable(),
    ensures
        reads_back(
            Cursors::start(),
            write_all(WriteState::start(), chunks).data,
            chunks,
            write_all(WriteState::start(), chunks).cursors(),
        ),
{
    lemma_read_back_from(
        WriteState::start(),
        chunks,
        write_all(WriteState::start(), chunks).data,
    );
}

/// A data section that is being written.
///
/// The bytes and the two narrow positions are kept together, and nothing but
/// the writes below changes them.
pub struct ByteBufferWrite {
    buffer: Vec<u8>,
    offset_1: usize,
    offset_2: usize,
}

impl ByteBufferWrite {
    /// The bytes written so far and the positions of the next narrow writes.
    pub closed spec fn state(&self) -> WriteState {
        WriteState { data: self.buffer@, c1: self.offset_1 as nat, c2: self.offset_2 as nat }
    }

    /// What holds of the buffer between any two writes.
    pub open spec fn wf(&self) -> bool {
        self.state().wf()
    }

    /// A buffer into which nothing has been written.
    pub fn new() -> (r: Self)
        ensures
            r.wf(),
            r.state() == WriteState::start(),
    {
        ByteBufferWrite { buffer: Vec::new(), offset_1: 0, offset_2: 0 }
    }

    /// The number of bytes written so far, padding included.
    pub fn len(&self) -> (r: usize)
        ensures
            r == self.state().data.len(),
    {
        self.buffer.len()
    }

    /// The bytes written so far, padding included.
    pub fn into_inner(self) -> (r: Vec<u8>)
        ensures
            r@ == self.state().data,
    {
        self.buffer
    }

    /// Appends zeros up to the next multiple of four.
    fn pad(buffer: &mut Vec<u8>)
        ensures
            final(buffer)@ == old(buffer)@ + zeros(
                (align4(old(buffer)@.len()) - old(buffer)@.len()) as nat,
            ),
    {
        let rest = buffer.len() % 4;
        let missing: usize = if rest == 0 {
            0
        } else {
            4 - rest
        };
        let mut i: usize = 0;
        assert(buffer@ == old(buffer)@ + zeros(0));
        while i < missing
            invariant
                i <= missing,
                buffer@ == old(buffer)@ + zeros(i as nat),
            decreases missing - i,
        {
            buffer.push(0);
            i += 1;
            assert(buffer@ == old(buffer)@ + zeros(i as nat));
        }
    }

    /// Writes a value of one or two bytes at its narrow position.
    fn write_narrow(&mut self, bytes: &Vec<u8>)
        requires
            old(self).wf(),
            bytes@.len() == 1 || bytes@.len() == 2,
        ensures
            final(self).wf(),
            final(self).state() == old(self).state().write_narrow(bytes@),
    {
        let width = bytes.len();
        let mine = if width == 1 {
            self.offset_1
        } else {
            self.offset_2
        };
        proof {
            lemma_writes_keep_alignment(self.state(), bytes@);
        }
        let ghost before = self.buffer@;
        if mine % 4 == 0 {
            let at = self.buffer.len();
            append_bytes(&mut self.buffer, bytes);
            Self::pad(&mut self.buffer);
            if width == 1 {
                self.offset_1 = at + 1;
            } else {
                self.offset_2 = at + 2;
            }
            assert(self.buffer@ == before + bytes@ + zeros((4 - width) as nat));
        } else {
            assert(mine < self.buffer.len());
            assert(width == 2 ==> mine % 4 == 2 && mine + 2 <= self.buffer.len());
            self.buffer.set(mine, bytes[0]);
            if width == 2 {
                self.buffer.set(mine + 1, bytes[1]);
            }
            if width == 1 {
                self.offset_1 = mine + 1;
            } else {
                self.offset_2 = mine + 2;
            }
            assert(self.buffer@ == before.take(mine as int) + bytes@ + before.skip(
                (mine + width) as int,
            ));
        }
    }

    /// Writes one byte at the position for single bytes.
    pub fn write_u8(&mut self, value: u8)
        requires
            old(self).wf(),
        ensures
            final(self).wf(),
            final(self).state() == old(self).state().write_narrow(seq![value]),
    {
        let mut bytes: Vec<u8> = Vec::new();
        bytes.push(value);
        assert(bytes@ == seq![value]);
        self.write_narrow(&bytes);
    }

    /// Writes a number of two bytes at the position for pairs, most significant byte first.
    pub fn write_u16(&mut self, value: u16)
        requires
            old(self).wf(),
        ensures
            final(self).wf(),
            final(self).state() == old(self).state().write_narrow(be_bytes(value as nat, 2)),
    {
        let bytes = crate::byte_order::be_bytes_u16(value);
        proof {
            crate::byte_order::lemma_be_bytes_len(value as nat, 2);
        }
        self.write_narrow(&bytes);
    }

    /// Writes `bytes` at the end, and zeros after them up to the next multiple of four.
    pub fn write_sized(&mut self, bytes: &Vec<u8>)
        requires
            old(self).wf(),
        ensures
            final(self).wf(),
            final(self).state() == old(self).state().write_sized(bytes@),
    {
        proof {
            lemma_writes_keep_alignment(self.state(), bytes@);
        }
        append_bytes(&mut self.buffer, bytes);
        Self::pad(&mut self.buffer);
    }

    /// Writes a number of four bytes at the end, most significant byte first.
    pub fn write_u32(&mut self, value: u32)
        requires
            old(self).wf(),
        ensures
            final(self).wf(),
            final(self).state() == old(self).state().write_sized(be_bytes(value as nat, 4)),
    {
        let bytes = be_bytes_u32(value);
        self.write_sized(&bytes);
    }

    /// Writes a value where values of its size are written.
    ///
    /// A value of no bytes is refused, and nothing is written.
    pub fn write_aligned(&mut self, bytes: &Vec<u8>) -> (r: Result<(), KbinError>)
        requires
            old(self).wf(),
        ensures
            final(self).wf(),
            match old(self).state().write_aligned(bytes@) {
                Ok(next) => r is Ok && final(self).state() == next,
                Err(e) => r == Err::<(), KbinError>(e) && final(self).state() == old(self).state(),
            },
    {
        if bytes.len() == 0 {
            Err(KbinError::InvalidState)
        } else if bytes.len() == 1 || bytes.len() == 2 {
            self.write_narrow(bytes);
            Ok(())
        } else {
            self.write_sized(bytes);
            Ok(())
        }
    }

    /// Writes the number of `bytes` in four bytes, and then `bytes`, both at the end.
    ///
    /// Bytes whose number does not fit into four bytes are refused, and nothing is written.
    pub fn write_length_prefixed(&mut self, bytes: &Vec<u8>, node_type: &'static str) -> (r:
        Result<(), KbinError>)
        requires
            old(self).wf(),
        ensures
            final(self).wf(),
            match old(self).state().write_length_prefixed(bytes@, node_type) {
                Ok(next) => r is Ok && final(self).state() == next,
                Err(e) => r == Err::<(), KbinError>(e) && final(self).state() == old(self).state(),
            },
    {
        if bytes.len() > u32::MAX as usize {
            return Err(KbinError::DataWrite { node_type });
        }
        self.write_u32(bytes.len() as u32);
        self.write_sized(bytes);
        Ok(())
    }
}

} // verus!
