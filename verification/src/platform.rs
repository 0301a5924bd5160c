//! Copying a file piece by piece: the way that works everywhere.

use vstd::prelude::*;

use crate::{go_on_unless, CancelToken, EngineError, EngineResult};

verus! {

/// The most bytes moved in one go.
pub const BUF_SIZE: usize = 8_388_608;

/// How the destination is opened.
#[derive(Debug, Clone, Copy, PartialEq, Eq, Structural)]
pub enum OpenHow {
    /// Created anew and empty, so that its size always tells how much of the
    /// file it has.
    Create,
    /// Opened as it is; both files go on at this offset.
    Resume { offset: u64 },
}

/// The state of copying a file piece by piece.
#[derive(Debug, Clone, Copy, PartialEq, Eq, Structural)]
pub struct ChunkedCopy {
    pub total_size: u64,
    /// Where the copy started.
    pub start: u64,
    /// How much of the file the destination has.
    pub copied: u64,
}

impl ChunkedCopy {
    /// A copy of a file of the given size, from the start or from where an
    /// earlier one stopped.
    pub fn new(total_size: u64, resume_from: Option<u64>) -> (r: ChunkedCopy)
        ensures
            r.total_size == total_size,
            r.start == (match resume_from {
                Some(offset) => offset,
                None => 0,
            }),
            r.copied == r.start,
    {
        let start: u64 = match resume_from {
            Some(offset) => offset,
            None => 0,
        };
        ChunkedCopy { total_size, start, copied: start }
    }

    /// How the destination is opened.
    pub fn open_how(&self) -> (r: OpenHow)
        ensures
            r == (if self.start > 0 {
                OpenHow::Resume { offset: self.start }
            } else {
                OpenHow::Create
            }),
    {
        if self.start > 0 {
            OpenHow::Resume { offset: self.start }
        } else {
            OpenHow::Create
        }
    }

    /// What a copy of `source` that was not resumed has left at the
    /// destination: the bytes that were moved, and nothing after them.
    pub open spec fn left_behind(self, source: Seq<u8>) -> Seq<u8> {
        source.take(self.copied as int)
    }

    /// Whether to go on, asked before each piece.
    pub fn go_on(&self, cancel: &CancelToken) -> (r: EngineResult<()>)
        ensures
            cancel@ ==> r == Err::<(), EngineError>(EngineError::Cancelled),
            !cancel@ ==> r is Ok,
    {
        go_on_unless(cancel)
    }

    /// Takes note that a piece of `n` bytes was written and tells how much
    /// the destination has now; `None` when the file has ended.
    pub fn moved(&mut self, n: u64) -> (r: Option<u64>)
        ensures
            n == 0 ==> r is None && *final(self) == *old(self),
            n > 0 ==> {
                let copied = old(self).copied.wrapping_add(n);
                r == Some(copied) && *final(self) == (ChunkedCopy { copied, ..*old(self) })
            },
    {
        if n == 0 {
            return None;
        }
        self.copied = self.copied.wrapping_add(n);
        Some(self.copied)
    }
}

/// The bytes of a source arrive one after the other: a copy that was not
/// resumed has moved as many bytes as its pieces had, and a resumed one goes on
/// where it was told to.
pub proof fn law_pieces_add_up(
    total_size: u64,
    resume_from: Option<u64>,
    fresh: ChunkedCopy,
    copy: &mut ChunkedCopy,
    n: u64,
    r: Option<u64>,
    how: OpenHow,
)
    requires
        call_ensures(ChunkedCopy::new, (total_size, resume_from), fresh),
        call_ensures(ChunkedCopy::open_how, (&fresh,), how),
        call_ensures(ChunkedCopy::moved, (copy, n), r),
        copy.copied + n <= u64::MAX,
    ensures
        resume_from is None ==> fresh.copied == 0 && how is Create,
        resume_from is Some && resume_from->0 > 0 ==> fresh.copied == resume_from->0 && how
            == (OpenHow::Resume { offset: resume_from->0 }),
        final(copy).copied == old(copy).copied + n,
        r is None == (n == 0),
        n > 0 ==> r == Some(final(copy).copied),
{
}

} // verus!
