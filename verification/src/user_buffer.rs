//! Buffers in a task's memory as the kernel reaches them: a run of user
//! addresses splits at page boundaries into pieces, each inside one frame.

use vstd::prelude::*;
use crate::address::{spec_ceil, spec_floor, va_space, VirtPageNum};
use crate::config::PAGE_SIZE;
use crate::memory_set::{in_range, range_mapped};
use crate::task::Kernel;

verus! {

broadcast use crate::memory_set::MemorySet::lemma_frames_dom;

/// The part of a user buffer that lies in one physical frame: `len` bytes
/// from byte `offset` of frame `ppn`.
#[derive(Clone, Copy, Debug, PartialEq, Eq, Structural)]
pub struct BufferPiece {
    pub ppn: usize,
    pub offset: usize,
    pub len: usize,
}

/// How many pieces the buffer of `len` bytes at `va` has: one per page it
/// touches.
pub open spec fn piece_count(va: nat, len: nat) -> nat {
    if len == 0 {
        0
    } else {
        (spec_ceil(va + len) - spec_floor(va)) as nat
    }
}

/// The page of piece `i` of a buffer at `va`.
pub open spec fn piece_page(va: nat, i: nat) -> nat {
    spec_floor(va) + i
}

/// The first user address of piece `i` of a buffer at `va`.
pub open spec fn piece_start(va: nat, i: nat) -> nat {
    if i == 0 {
        va
    } else {
        piece_page(va, i) * (PAGE_SIZE as nat)
    }
}

/// The user address just past piece `i` of the buffer of `len` bytes at `va`.
pub open spec fn piece_end(va: nat, len: nat, i: nat) -> nat {
    let page_end = (piece_page(va, i) + 1) * (PAGE_SIZE as nat);
    if page_end < va + len {
        page_end
    } else {
        va + len
    }
}

/// Whether every page that the buffer of `len` bytes at `va` touches is
/// mapped in `m`.
pub open spec fn buffer_mapped(m: Map<usize, u8>, va: nat, len: nat) -> bool {
    range_mapped(m, spec_floor(va), spec_ceil(va + len))
}

/// Piece `i` of the buffer of `len` bytes at `va` in an address space whose
/// pages have the frames `frames`.
pub open spec fn spec_piece(frames: Map<usize, usize>, va: nat, len: nat, i: nat) -> BufferPiece {
    BufferPiece {
        ppn: frames[piece_page(va, i) as usize],
        offset: (piece_start(va, i) - piece_page(va, i) * (PAGE_SIZE as nat)) as usize,
        len: (piece_end(va, len, i) - piece_start(va, i)) as usize,
    }
}

/// `pieces` are the pieces of the buffer of `len` bytes at `va` in an
/// address space whose pages have the frames `frames`.
pub open spec fn buffer_pieces(frames: Map<usize, usize>, va: nat, len: nat, pieces: Seq<BufferPiece>) -> bool {
    &&& pieces.len() == piece_count(va, len)
    &&& forall|i: int| 0 <= i < pieces.len() ==> #[trigger] pieces[i] == spec_piece(frames, va, len, i as nat)
}

impl Kernel {
    /// The pieces, frame by frame, of the running task's buffer of `len`
    /// bytes at user address `va`: where the kernel reads or writes it.
    pub fn translated_byte_buffer(&self, va: usize, len: usize) -> (pieces: Vec<BufferPiece>)
        requires
            self.current is Some,
            self.valid_pid(self.cur()),
            va + len <= va_space(),
            va + len <= usize::MAX,
            buffer_mapped(self.current_memory(), va as nat, len as nat),
        ensures
            buffer_pieces(self.current_frames(), va as nat, len as nat, pieces@),
    {
        let cur = self.current.unwrap();
        let end = va + len;
        let mut start = va;
        let mut pieces: Vec<BufferPiece> = Vec::new();
        let ghost f = spec_floor(va as nat);
        while start < end
            invariant
                cur as int == self.cur(),
                self.valid_pid(cur as int),
                end == va + len,
                end <= va_space(),
                buffer_mapped(self.current_memory(), va as nat, len as nat),
                va <= start <= end,
                f == spec_floor(va as nat),
                start < end ==> start as nat == piece_start(va as nat, pieces@.len()),
                pieces@.len() == 0 ==> start == va,
                len == 0 ==> pieces@.len() == 0,
                pieces@.len() > 0 && start < end ==> start as nat == (f + pieces@.len()) * 4096,
                pieces@.len() > 0 && start == end ==> end <= (f + pieces@.len()) * 4096,
                pieces@.len() > 0 ==> (f + pieces@.len() - 1) * 4096 < end,
                forall|i: int|
                    0 <= i < pieces@.len() ==> #[trigger] pieces@[i] == spec_piece(
                        self.current_frames(),
                        va as nat,
                        len as nat,
                        i as nat,
                    ),
            decreases end - start,
        {
            let ghost i = pieces@.len();
            let vpn = start / PAGE_SIZE;
            proof {
                if i > 0 {
                    let x: int = (f + i) as int;
                    assert(start as int == x * 4096);
                    assert((x * 4096) / 4096 == x) by (nonlinear_arith);
                    assert(vpn as int == x);
                } else {
                    assert(start == va);
                    assert(vpn as nat == spec_floor(va as nat));
                }
            }
            assert(start == vpn * 4096 + start % 4096) by (nonlinear_arith)
                requires
                    vpn == start / 4096,
            ;
            assert(in_range(vpn, f, spec_ceil(end as nat))) by {
                assert(vpn * 4096 <= start);
                assert((vpn as int) < (end as int + 4095) / 4096) by (nonlinear_arith)
                    requires
                        vpn * 4096 <= start,
                        start < end,
                ;
                assert(spec_ceil(end as nat) == (end as int + 4095) / 4096);
                assert(vpn as int == f + i);
            }
            assert(in_range(vpn, spec_floor(va as nat), spec_ceil(va as nat + len as nat)));
            let ppn = self.tasks[cur].memory_set.frame_of(VirtPageNum(vpn)).unwrap();
            let offset = start % PAGE_SIZE;
            let room = PAGE_SIZE - offset;
            let stop = if end - start > room {
                start + room
            } else {
                end
            };
            pieces.push(BufferPiece { ppn, offset, len: stop - start });
            proof {
                assert(pieces@[i as int] == spec_piece(self.current_frames(), va as nat, len as nat, i));
            }
            start = stop;
            proof {
                assert(start as int == stop as int);
                if stop < end {
                    assert(stop as int == (f + i + 1) * 4096);
                }
            }
        }
        proof {
            let n = pieces@.len();
            if len == 0 {
                assert(n == 0);
            } else {
                assert(n > 0);
                assert((f + n - 1) * 4096 < end);
                assert(end <= (f + n) * 4096);
                assert(spec_ceil(end as nat) == f + n) by {
                    assert((end + 4095) / 4096 == f + n) by (nonlinear_arith)
                        requires
                            (f + n - 1) * 4096 < end,
                            end <= (f + n) * 4096,
                    ;
                }
            }
        }
        pieces
    }
}

} // verus!
