//! Header blocks that span frames (RFC 7540, section 4.3): a HEADERS or
//! PUSH_PROMISE frame without `END_HEADERS` is followed by CONTINUATION
//! frames of the same stream, and by nothing else, until one of them
//! carries `END_HEADERS`. The fragments, put together, are the header block.

use vstd::prelude::*;
use crate::error::H2Error;
use crate::frame::frame_types::END_HEADERS;
use crate::frame::FrameKind;

verus! {

/// How far a header block has come, as a value of specifications.
pub struct BlockState {
    /// A block has been started and not ended.
    pub open: bool,
    /// The stream of the block that is open.
    pub stream: u32,
    /// The fragments of the block that is open, put together.
    pub octets: Seq<u8>,
}

/// What a frame does to a header block.
pub enum BlockStep {
    /// The frame has nothing to do with header blocks.
    Ignored,
    /// The frame carried a part of a block that goes on.
    Pending,
    /// The frame ended a block: here it is, whole.
    Complete(Seq<u8>),
    /// The frame breaks the rule that a block is not interrupted.
    Violation,
}

/// No block is open.
pub open spec fn idle() -> BlockState {
    BlockState { open: false, stream: 0, octets: Seq::empty() }
}

/// A frame of this kind starts a header block.
pub open spec fn starts_block(kind: FrameKind) -> bool {
    kind == FrameKind::Headers || kind == FrameKind::PushPromise
}

/// What the frame of the kind `kind` with the flags `flags` on the stream
/// `stream`, which carries the fragment `fragment`, does to the block.
///
/// While a block is open only a CONTINUATION frame of its stream may
/// follow; while none is open a CONTINUATION frame may not come.
pub open spec fn spec_block_step(
    state: BlockState,
    kind: FrameKind,
    flags: u8,
    stream: u32,
    fragment: Seq<u8>,
) -> BlockStep {
    if state.open {
        if kind == FrameKind::Continuation && stream == state.stream {
            if flags & END_HEADERS != 0 {
                BlockStep::Complete(state.octets + fragment)
            } else {
                BlockStep::Pending
            }
        } else {
            BlockStep::Violation
        }
    } else if starts_block(kind) {
        if flags & END_HEADERS != 0 {
            BlockStep::Complete(fragment)
        } else {
            BlockStep::Pending
        }
    } else if kind == FrameKind::Continuation {
        BlockStep::Violation
    } else {
        BlockStep::Ignored
    }
}

/// The state behind the frame. A block that is ended or interrupted is
/// given up.
pub open spec fn spec_block_next(
    state: BlockState,
    kind: FrameKind,
    flags: u8,
    stream: u32,
    fragment: Seq<u8>,
) -> BlockState {
    match spec_block_step(state, kind, flags, stream, fragment) {
        BlockStep::Ignored => state,
        BlockStep::Pending => BlockState {
            open: true,
            stream,
            octets: if state.open {
                state.octets + fragment
            } else {
                fragment
            },
        },
        BlockStep::Complete(_) => idle(),
        BlockStep::Violation => idle(),
    }
}

/// Puts the fragments of a header block together, frame by frame.
pub struct BlockAssembler {
    open: bool,
    stream: u32,
    octets: Vec<u8>,
}

impl View for BlockAssembler {
    type V = BlockState;

    closed spec fn view(&self) -> BlockState {
        BlockState {
            open: self.open,
            stream: if self.open {
                self.stream
            } else {
                0
            },
            octets: if self.open {
                self.octets@
            } else {
                Seq::empty()
            },
        }
    }
}

impl BlockAssembler {
    /// An assembler with no block open.
    pub fn new() -> (r: Self)
        ensures
            r@ == idle(),
    {
        BlockAssembler { open: false, stream: 0, octets: Vec::new() }
    }

    /// Tells whether a block is open.
    pub fn is_open(&self) -> (r: bool)
        ensures
            r == self@.open,
    {
        self.open
    }

    /// Takes the next frame of the connection: its kind, its flags, its
    /// stream and, for a frame that carries one, its header block fragment.
    ///
    /// Gives the whole block when the frame ends one, and nothing when the
    /// block goes on or the frame is of another kind. Fails when the frame
    /// interrupts an open block and when a CONTINUATION frame comes with no
    /// block open.
    pub fn push(&mut self, kind: FrameKind, flags: u8, stream: u32, fragment: &[u8]) -> (r: Result<
        Option<Vec<u8>>,
        H2Error,
    >)
        ensures
            final(self)@ == spec_block_next(old(self)@, kind, flags, stream, fragment@),
            match spec_block_step(old(self)@, kind, flags, stream, fragment@) {
                BlockStep::Ignored => r.is_ok() && r.unwrap().is_none(),
                BlockStep::Pending => r.is_ok() && r.unwrap().is_none(),
                BlockStep::Complete(block) => r.is_ok() && r.unwrap().is_some()
                    && r.unwrap().unwrap()@ == block,
                BlockStep::Violation => r.is_err() && r.unwrap_err() == H2Error::ProtocolViolation,
            },
    {
        let ends: bool = flags & END_HEADERS != 0;
        if self.open {
            let continues: bool = match kind {
                FrameKind::Continuation => stream == self.stream,
                _ => false,
            };
            if !continues {
                self.open = false;
                self.octets = Vec::new();
                return Err(H2Error::ProtocolViolation);
            }
            let mut whole: Vec<u8> = Vec::new();
            std::mem::swap(&mut whole, &mut self.octets);
            append_octets(&mut whole, fragment);
            if ends {
                self.open = false;
                Ok(Some(whole))
            } else {
                self.octets = whole;
                Ok(None)
            }
        } else {
            match kind {
                FrameKind::Headers | FrameKind::PushPromise => {
                    let mut whole: Vec<u8> = Vec::new();
                    append_octets(&mut whole, fragment);
                    if ends {
                        Ok(Some(whole))
                    } else {
                        self.open = true;
                        self.stream = stream;
                        self.octets = whole;
                        Ok(None)
                    }
                },
                FrameKind::Continuation => Err(H2Error::ProtocolViolation),
                _ => Ok(None),
            }
        }
    }
}

/// Adds the octets of `more` to the end of `to`.
pub fn append_octets(to: &mut Vec<u8>, more: &[u8])
    ensures
        final(to)@ == old(to)@ + more@,
{
    let mut i: usize = 0;
    while i < more.len()
        invariant
            i <= more@.len(),
            to@ == old(to)@ + more@.take(i as int),
        decreases more@.len() - i,
    {
        to.push(more[i]);
        i = i + 1;
        assert(to@ =~= old(to)@ + more@.take(i as int));
    }
    assert(more@.take(i as int) =~= more@);
}

} // verus!
