//! The decisions of the splitting loop, as a state machine.
//!
//! The caller does the input and output: it opens the source, reads chunks,
//! writes parts and computes checksums of files. After each of these it
//! tells the [`Splitter`] what happened, and the splitter answers with what
//! to do next.

use crate::chunks::{
    chunk_bytes, chunk_len, chunk_start, joined_chunks, last_chunk_len, lemma_chunk_end,
    lemma_chunk_len, lemma_chunk_starts_inside, lemma_chunks_rebuild_source,
    lemma_num_chunks_is_least_cover, num_chunks,
};
use crate::crc::{checksum, differ_only_at, lemma_checksum_detects_byte_change};
use crate::naming::{get_part_name, part_name};
use vstd::prelude::*;

verus! {

/// Why a run was given up. Every one of these ends the run.
#[derive(Clone, Copy, Debug, PartialEq, Eq, Structural)]
pub enum SplitError {
    /// The chunk size was zero.
    ZeroChunkSize,
    /// A file could not be opened.
    OpenFailed,
    /// A file could not be read.
    ReadFailed,
    /// A part could not be created or written.
    WriteFailed,
    /// A part and its counterpart in the reference directory have different checksums.
    ChecksumMismatch { part_index: usize, part_checksum: u32, reference_checksum: u32 },
}

/// Where a run stands.
#[derive(Clone, Copy, Debug, PartialEq, Eq, Structural)]
pub enum Phase {
    /// Nothing was done yet; the source is to be opened.
    Opening,
    /// The next chunk is to be read.
    Reading,
    /// A chunk of `length` bytes was read and is to be written and checked.
    Writing { length: usize },
    /// The source was read to its end.
    Finished,
    /// The run was given up.
    Failed(SplitError),
}

/// What the caller reports to the splitter.
#[derive(Debug, PartialEq, Eq)]
pub enum Event {
    /// The source was opened. `file_name` is its name without the directory.
    Opened { file_name: String, file_size: usize },
    /// A read of up to one chunk returned this many bytes; zero at the end of the source.
    Read(usize),
    /// The part was written. `checksum` is that of the part as read back,
    /// `reference` that of the part of the same name in the reference
    /// directory, where there is such a directory.
    PartWritten { checksum: u32, reference: Option<u32> },
    /// A file could not be opened: the source, or a part or its reference
    /// when its checksum was to be computed.
    OpenFailed,
    /// A read failed, from the source or while a checksum was computed.
    ReadFailed,
    /// The part could not be created or written.
    WriteFailed,
}

/// What the splitter asks the caller to do.
#[derive(Debug, PartialEq, Eq)]
pub enum Action {
    /// Open the source and report its name and size.
    OpenSource,
    /// Read up to one chunk from the source into the buffer.
    ReadChunk,
    /// Write the first `length` bytes of the buffer to the part file `name`
    /// and compute the checksums.
    WritePart { index: usize, name: String, length: usize },
    /// Stop: every part was written.
    Finish,
    /// Stop: the run failed.
    Abort(SplitError),
}

/// An [`Action`] as a mathematical value.
pub enum ActionView {
    OpenSource,
    ReadChunk,
    WritePart { index: nat, name: Seq<char>, length: nat },
    Finish,
    Abort(SplitError),
}

impl View for Action {
    type V = ActionView;

    open spec fn view(&self) -> ActionView {
        match *self {
            Action::OpenSource => ActionView::OpenSource,
            Action::ReadChunk => ActionView::ReadChunk,
            Action::WritePart { index, name, length } => ActionView::WritePart {
                index: index as nat,
                name: name@,
                length: length as nat,
            },
            Action::Finish => ActionView::Finish,
            Action::Abort(error) => ActionView::Abort(error),
        }
    }
}

/// The state of a run as a mathematical value.
pub struct SplitterState {
    pub phase: Phase,
    /// The name of the source, empty until it is opened.
    pub file_name: Seq<char>,
    pub chunk_size: nat,
    /// The size of the source, zero until it is opened.
    pub file_size: nat,
    /// The number of parts written and found good; the index of the next part.
    pub part_number: nat,
    /// The number of bytes in those parts.
    pub bytes_consumed: nat,
}

/// The state of a run before anything was done.
pub open spec fn initial_state(chunk_size: nat) -> SplitterState {
    SplitterState {
        phase: Phase::Opening,
        file_name: Seq::empty(),
        chunk_size,
        file_size: 0,
        part_number: 0,
        bytes_consumed: 0,
    }
}

/// What holds of every state that a run reaches: the chunk size is
/// positive, every part written held at least one byte, and the bytes
/// written and about to be written can be counted.
pub open spec fn well_formed(state: SplitterState) -> bool {
    &&& 0 < state.chunk_size <= usize::MAX
    &&& state.file_size <= usize::MAX
    &&& state.part_number <= state.bytes_consumed <= usize::MAX
    &&& state.phase matches Phase::Writing { length } ==> length >= 1 && state.bytes_consumed
        + length <= usize::MAX
}

/// Whether the machine limits allow `event` in `state`: the bytes read so
/// far, with those of a new read, must be countable in a `usize`.
pub open spec fn countable(state: SplitterState, event: Event) -> bool {
    event matches Event::Read(count) ==> state.bytes_consumed + count <= usize::MAX
}

/// The failure that `event` reports, if it reports one.
pub open spec fn failure_of(event: Event) -> Option<SplitError> {
    match event {
        Event::OpenFailed => Some(SplitError::OpenFailed),
        Event::ReadFailed => Some(SplitError::ReadFailed),
        Event::WriteFailed => Some(SplitError::WriteFailed),
        _ => None,
    }
}

/// Whether a run in this phase has stopped, finished or failed.
pub open spec fn stopped(phase: Phase) -> bool {
    phase is Finished || phase is Failed
}

/// The state that follows `state` on `event`. Nothing follows a run that
/// has stopped. A failure ends a run whatever it was waiting for. Any other
/// event that the phase does not wait for changes nothing.
pub open spec fn next_state(state: SplitterState, event: Event) -> SplitterState {
    if stopped(state.phase) {
        state
    } else if failure_of(event) is Some {
        SplitterState { phase: Phase::Failed(failure_of(event)->0), ..state }
    } else {
        match (state.phase, event) {
            (Phase::Opening, Event::Opened { file_name, file_size }) => SplitterState {
                phase: Phase::Reading,
                file_name: file_name@,
                file_size: file_size as nat,
                ..state
            },
            (Phase::Reading, Event::Read(count)) => if count == 0 {
                SplitterState { phase: Phase::Finished, ..state }
            } else {
                SplitterState { phase: Phase::Writing { length: count }, ..state }
            },
            (Phase::Writing { length }, Event::PartWritten { checksum, reference }) => {
                if reference is Some && reference->0 != checksum {
                    SplitterState {
                        phase: Phase::Failed(
                            SplitError::ChecksumMismatch {
                                part_index: state.part_number as usize,
                                part_checksum: checksum,
                                reference_checksum: reference->0,
                            },
                        ),
                        ..state
                    }
                } else {
                    SplitterState {
                        phase: Phase::Reading,
                        part_number: state.part_number + 1,
                        bytes_consumed: state.bytes_consumed + length as nat,
                        ..state
                    }
                }
            },
            _ => state,
        }
    }
}

/// What a run in `state` asks of the caller.
pub open spec fn pending(state: SplitterState) -> ActionView {
    match state.phase {
        Phase::Opening => ActionView::OpenSource,
        Phase::Reading => ActionView::ReadChunk,
        Phase::Writing { length } => ActionView::WritePart {
            index: state.part_number,
            name: part_name(
                state.file_name,
                state.part_number,
                state.chunk_size,
                state.file_size,
            ),
            length: length as nat,
        },
        Phase::Finished => ActionView::Finish,
        Phase::Failed(error) => ActionView::Abort(error),
    }
}

/// One run of the splitter over one source.
pub struct Splitter {
    phase: Phase,
    file_name: String,
    chunk_size: usize,
    file_size: usize,
    part_number: usize,
    bytes_consumed: usize,
}

impl View for Splitter {
    type V = SplitterState;

    closed spec fn view(&self) -> SplitterState {
        SplitterState {
            phase: self.phase,
            file_name: self.file_name@,
            chunk_size: self.chunk_size as nat,
            file_size: self.file_size as nat,
            part_number: self.part_number as nat,
            bytes_consumed: self.bytes_consumed as nat,
        }
    }
}

impl Splitter {
    #[verifier::type_invariant]
    spec fn inv(&self) -> bool {
        well_formed(self@)
    }

    /// Starts a run with chunks of `chunk_size` bytes. A chunk size of zero
    /// is refused here, before the caller is asked to touch any file.
    pub fn new(chunk_size: usize) -> (result: Result<Splitter, SplitError>)
        ensures
            chunk_size == 0 ==> result == Err::<Splitter, SplitError>(SplitError::ZeroChunkSize),
            chunk_size > 0 ==> result is Ok && result->Ok_0@ == initial_state(chunk_size as nat),
    {
        if chunk_size == 0 {
            Err(SplitError::ZeroChunkSize)
        } else {
            Ok(
                Splitter {
                    phase: Phase::Opening,
                    file_name: String::new(),
                    chunk_size,
                    file_size: 0,
                    part_number: 0,
                    bytes_consumed: 0,
                },
            )
        }
    }

    /// Where the run stands.
    pub fn phase(&self) -> (phase: Phase)
        ensures
            phase == self@.phase,
    {
        self.phase
    }

    /// The chunk size that the run was started with.
    pub fn chunk_size(&self) -> (size: usize)
        ensures
            size == self@.chunk_size,
    {
        self.chunk_size
    }

    /// The number of parts written and found good so far.
    pub fn part_number(&self) -> (count: usize)
        ensures
            count == self@.part_number,
    {
        self.part_number
    }

    /// The number of bytes in the parts written and found good so far.
    pub fn bytes_consumed(&self) -> (count: usize)
        ensures
            count == self@.bytes_consumed,
    {
        self.bytes_consumed
    }

    /// Whether `event` can be handed to [`Splitter::step`]: a read is
    /// refused when its bytes, with those already counted, no longer fit in
    /// a `usize`.
    pub fn accepts(&self, event: &Event) -> (ok: bool)
        ensures
            ok == countable(self@, *event),
    {
        match event {
            Event::Read(count) => *count <= usize::MAX - self.bytes_consumed,
            _ => true,
        }
    }

    /// What the splitter is waiting for the caller to do.
    pub fn action(&self) -> (action: Action)
        ensures
            action@ == pending(self@),
    {
        proof {
            use_type_invariant(self);
        }
        match self.phase {
            Phase::Opening => Action::OpenSource,
            Phase::Reading => Action::ReadChunk,
            Phase::Writing { length } => Action::WritePart {
                index: self.part_number,
                name: get_part_name(
                    self.file_name.clone(),
                    self.part_number,
                    self.chunk_size,
                    self.file_size,
                ),
                length,
            },
            Phase::Finished => Action::Finish,
            Phase::Failed(error) => Action::Abort(error),
        }
    }

    /// Takes in what happened and says what to do next.
    pub fn step(&mut self, event: Event) -> (action: Action)
        requires
            countable(old(self)@, event),
        ensures
            final(self)@ == next_state(old(self)@, event),
            action@ == pending(final(self)@),
    {
        proof {
            use_type_invariant(&*self);
        }
        match self.phase {
            Phase::Finished => {},
            Phase::Failed(_) => {},
            phase => match event {
                Event::OpenFailed => {
                    self.phase = Phase::Failed(SplitError::OpenFailed);
                },
                Event::ReadFailed => {
                    self.phase = Phase::Failed(SplitError::ReadFailed);
                },
                Event::WriteFailed => {
                    self.phase = Phase::Failed(SplitError::WriteFailed);
                },
                Event::Opened { file_name, file_size } => {
                    if let Phase::Opening = phase {
                        self.file_name = file_name;
                        self.file_size = file_size;
                        self.phase = Phase::Reading;
                    }
                },
                Event::Read(count) => {
                    if let Phase::Reading = phase {
                        if count == 0 {
                            self.phase = Phase::Finished;
                        } else {
                            self.phase = Phase::Writing { length: count };
                        }
                    }
                },
                Event::PartWritten { checksum, reference } => {
                    if let Phase::Writing { length } = phase {
                        match reference {
                            Some(expected) if expected != checksum => {
                                self.phase = Phase::Failed(
                                    SplitError::ChecksumMismatch {
                                        part_index: self.part_number,
                                        part_checksum: checksum,
                                        reference_checksum: expected,
                                    },
                                );
                            },
                            _ => {
                                self.phase = Phase::Reading;
                                self.bytes_consumed = self.bytes_consumed + length;
                                self.part_number = self.part_number + 1;
                            },
                        }
                    }
                },
            },
        }
        self.action()
    }
}

/// Every step leads from a well-formed state to a well-formed state.
pub proof fn lemma_step_keeps_well_formed(state: SplitterState, event: Event)
    requires
        well_formed(state),
        countable(state, event),
    ensures
        well_formed(next_state(state, event)),
{
}

/// The part index only ever goes up, and by one at a time: a step either
/// leaves the counts of parts and bytes as they are, or counts one more part
/// and the bytes it holds.
pub proof fn lemma_progress_is_monotonic(state: SplitterState, event: Event)
    ensures
        ({
            let next = next_state(state, event);
            ||| next.part_number == state.part_number && next.bytes_consumed
                == state.bytes_consumed
            ||| state.phase is Writing && next.phase is Reading && next.part_number
                == state.part_number + 1 && next.bytes_consumed == state.bytes_consumed
                + state.phase->length
        }),
{
}

/// A run that has stopped stays stopped: whatever is reported to it, its
/// state does not change, and it asks for no part to be written.
pub proof fn lemma_stopped_run_stays_stopped(state: SplitterState, event: Event)
    requires
        stopped(state.phase),
    ensures
        next_state(state, event) == state,
        state.phase is Finished ==> pending(state) == ActionView::Finish,
        state.phase matches Phase::Failed(error) ==> pending(state) == ActionView::Abort(error),
{
}

/// A part whose reference holds the same bytes passes the check: the run
/// goes on to the next read, with one more part counted.
pub proof fn lemma_identical_reference_passes(
    state: SplitterState,
    part: Seq<u8>,
    reference: Seq<u8>,
)
    requires
        state.phase is Writing,
        part == reference,
    ensures
        next_state(
            state,
            Event::PartWritten { checksum: checksum(part), reference: Some(checksum(reference)) },
        ) == (SplitterState {
            phase: Phase::Reading,
            part_number: state.part_number + 1,
            bytes_consumed: state.bytes_consumed + state.phase->length as nat,
            ..state
        }),
{
}

/// A part whose reference differs from it in a single byte fails the check:
/// the run is given up at that part's index, with both checksums reported.
pub proof fn lemma_changed_reference_aborts(
    state: SplitterState,
    part: Seq<u8>,
    reference: Seq<u8>,
    at: int,
)
    requires
        state.phase is Writing,
        differ_only_at(part, reference, at),
    ensures
        next_state(
            state,
            Event::PartWritten { checksum: checksum(part), reference: Some(checksum(reference)) },
        ) == (SplitterState {
            phase: Phase::Failed(
                SplitError::ChecksumMismatch {
                    part_index: state.part_number as usize,
                    part_checksum: checksum(part),
                    reference_checksum: checksum(reference),
                },
            ),
            ..state
        }),
{
    lemma_checksum_detects_byte_change(part, reference, at);
}

/// A part file as a run produces it.
pub struct WrittenPart {
    pub index: nat,
    pub name: Seq<char>,
    pub bytes: Seq<u8>,
}

/// The state of a run right after the source was opened.
pub open spec fn opened_state(
    chunk_size: nat,
    file_name: Seq<char>,
    file_size: nat,
) -> SplitterState {
    SplitterState {
        phase: Phase::Reading,
        file_name,
        chunk_size,
        file_size,
        part_number: 0,
        bytes_consumed: 0,
    }
}

/// The number of bytes that a read returns which is never short: a whole
/// chunk where the source has that much left, else what is left.
pub open spec fn full_read(state: SplitterState, source_len: nat) -> nat {
    if state.bytes_consumed >= source_len {
        0
    } else if source_len - state.bytes_consumed < state.chunk_size {
        (source_len - state.bytes_consumed) as nat
    } else {
        state.chunk_size
    }
}

/// Whether a run in `state` over a source of `source_len` bytes has another
/// part to write.
pub open spec fn has_next_part(state: SplitterState, source_len: nat) -> bool {
    &&& state.phase == Phase::Reading
    &&& state.chunk_size <= usize::MAX
    &&& full_read(state, source_len) > 0
}

/// The state of a run in `state` after its next part: the next read is not
/// short, the part is written, and it is found good (against a reference
/// that holds the same bytes, where `with_reference` is set).
pub open spec fn after_next_part(
    state: SplitterState,
    source: Seq<u8>,
    with_reference: bool,
) -> SplitterState {
    let count = full_read(state, source.len());
    let bytes = source.subrange(
        state.bytes_consumed as int,
        (state.bytes_consumed + count) as int,
    );
    let sum = checksum(bytes);
    next_state(
        next_state(state, Event::Read(count as usize)),
        Event::PartWritten {
            checksum: sum,
            reference: if with_reference {
                Some(sum)
            } else {
                None
            },
        },
    )
}

/// The part that a run in `state` writes next, as the action of the
/// splitter names it.
pub open spec fn next_part(state: SplitterState, source: Seq<u8>) -> WrittenPart {
    let count = full_read(state, source.len());
    let asked = pending(next_state(state, Event::Read(count as usize)));
    WrittenPart {
        index: asked->index,
        name: asked->name,
        bytes: source.subrange(
            state.bytes_consumed as int,
            (state.bytes_consumed + asked->length) as int,
        ),
    }
}

/// The parts that a run writes from `state` on, in the order in which it
/// writes them, when no read is short and every part is found good.
pub open spec fn parts_of_run(
    state: SplitterState,
    source: Seq<u8>,
    with_reference: bool,
) -> Seq<WrittenPart>
    decreases source.len() - state.bytes_consumed,
{
    if has_next_part(state, source.len()) {
        seq![next_part(state, source)] + parts_of_run(
            after_next_part(state, source, with_reference),
            source,
            with_reference,
        )
    } else {
        Seq::empty()
    }
}

/// The state in which such a run ends: after its last part, the read that
/// returns nothing.
pub open spec fn end_of_run(
    state: SplitterState,
    source: Seq<u8>,
    with_reference: bool,
) -> SplitterState
    decreases source.len() - state.bytes_consumed,
{
    if has_next_part(state, source.len()) {
        end_of_run(after_next_part(state, source, with_reference), source, with_reference)
    } else {
        next_state(state, Event::Read(0))
    }
}

/// The state of a run after `parts` whole chunks, or after the whole file
/// where it has fewer.
pub open spec fn after_parts(start: SplitterState, parts: nat) -> SplitterState {
    SplitterState {
        part_number: parts,
        bytes_consumed: if chunk_start(start.chunk_size, parts) <= start.file_size {
            chunk_start(start.chunk_size, parts)
        } else {
            start.file_size
        },
        ..start
    }
}

/// Part `index` of the file `file_name` as it should be: named by its
/// index, holding chunk `index` of the source.
pub open spec fn chunk_as_part(
    file_name: Seq<char>,
    source: Seq<u8>,
    chunk_size: nat,
    index: nat,
) -> WrittenPart {
    WrittenPart {
        index,
        name: part_name(file_name, index, chunk_size, source.len()),
        bytes: chunk_bytes(source, chunk_size, index),
    }
}

proof fn lemma_run_from(
    chunk_size: nat,
    file_name: Seq<char>,
    source: Seq<u8>,
    with_reference: bool,
    done: nat,
)
    requires
        0 < chunk_size <= usize::MAX,
        source.len() <= usize::MAX,
        done <= num_chunks(source.len(), chunk_size),
    ensures
        parts_of_run(
            after_parts(opened_state(chunk_size, file_name, source.len()), done),
            source,
            with_reference,
        ) == Seq::new(
            (num_chunks(source.len(), chunk_size) - done) as nat,
            |i: int| chunk_as_part(file_name, source, chunk_size, (done + i) as nat),
        ),
        end_of_run(
            after_parts(opened_state(chunk_size, file_name, source.len()), done),
            source,
            with_reference,
        ) == (SplitterState {
            phase: Phase::Finished,
            part_number: num_chunks(source.len(), chunk_size),
            bytes_consumed: source.len(),
            ..opened_state(chunk_size, file_name, source.len())
        }),
    decreases num_chunks(source.len(), chunk_size) - done,
{
    let start = opened_state(chunk_size, file_name, source.len());
    lemma_chunk_starts_inside(source.len(), chunk_size, done);
    lemma_num_chunks_is_least_cover(source.len(), chunk_size);
    if done < num_chunks(source.len(), chunk_size) {
        // The next read returns chunk `done` whole, and with it written the
        // run stands where it stands after `done + 1` parts.
        lemma_chunk_end(source.len(), chunk_size, done);
        assert(after_next_part(after_parts(start, done), source, with_reference) == after_parts(
            start,
            done + 1,
        ));
        lemma_run_from(chunk_size, file_name, source, with_reference, done + 1);
    }
}

/// A whole run, in which no read is short and every part is found good,
/// writes one part for each chunk of the source, in the order of the
/// indices: part `i` is named by `i` and holds chunk `i`. Then the run
/// finishes, with every byte of the source counted. It makes no difference
/// whether the parts are held against a reference with the same bytes.
pub proof fn lemma_run_writes_every_chunk(
    chunk_size: nat,
    file_name: Seq<char>,
    source: Seq<u8>,
    with_reference: bool,
)
    requires
        0 < chunk_size <= usize::MAX,
        source.len() <= usize::MAX,
    ensures
        parts_of_run(opened_state(chunk_size, file_name, source.len()), source, with_reference)
            == Seq::new(
            num_chunks(source.len(), chunk_size),
            |i: int| chunk_as_part(file_name, source, chunk_size, i as nat),
        ),
        end_of_run(opened_state(chunk_size, file_name, source.len()), source, with_reference) == (
        SplitterState {
            phase: Phase::Finished,
            part_number: num_chunks(source.len(), chunk_size),
            bytes_consumed: source.len(),
            ..opened_state(chunk_size, file_name, source.len())
        }),
{
    assert(chunk_start(chunk_size, 0) == 0) by (nonlinear_arith);
    lemma_run_from(chunk_size, file_name, source, with_reference, 0);
    assert(Seq::new(
        (num_chunks(source.len(), chunk_size) - 0) as nat,
        |i: int| chunk_as_part(file_name, source, chunk_size, (0 + i) as nat),
    ) =~= Seq::new(
        num_chunks(source.len(), chunk_size),
        |i: int| chunk_as_part(file_name, source, chunk_size, i as nat),
    ));
}

/// The bytes of `parts`, joined in the order of the parts.
pub open spec fn joined_bytes(parts: Seq<WrittenPart>) -> Seq<u8>
    decreases parts.len(),
{
    if parts.len() == 0 {
        Seq::empty()
    } else {
        joined_bytes(parts.drop_last()) + parts.last().bytes
    }
}

proof fn lemma_joined_parts_are_joined_chunks(
    file_name: Seq<char>,
    source: Seq<u8>,
    chunk_size: nat,
    count: nat,
)
    ensures
        joined_bytes(
            Seq::new(count, |i: int| chunk_as_part(file_name, source, chunk_size, i as nat)),
        ) == joined_chunks(source, chunk_size, count),
    decreases count,
{
    let parts = Seq::new(count, |i: int| chunk_as_part(file_name, source, chunk_size, i as nat));
    if count > 0 {
        let fewer = Seq::new(
            (count - 1) as nat,
            |i: int| chunk_as_part(file_name, source, chunk_size, i as nat),
        );
        assert(parts.drop_last() =~= fewer);
        lemma_joined_parts_are_joined_chunks(file_name, source, chunk_size, (count - 1) as nat);
    }
}

/// Splitting loses nothing and adds nothing. In a whole run, in which no
/// read is short and every part is found good, there are as many parts as
/// the chunk count says; the parts joined in the order of their indices are
/// the source, byte for byte; every part but the last holds a whole chunk;
/// and the last holds the remainder of the file size by the chunk size, or
/// a whole chunk where that remainder is zero.
pub proof fn lemma_run_rebuilds_source(
    chunk_size: nat,
    file_name: Seq<char>,
    source: Seq<u8>,
    with_reference: bool,
)
    requires
        0 < chunk_size <= usize::MAX,
        source.len() <= usize::MAX,
    ensures
        ({
            let parts = parts_of_run(
                opened_state(chunk_size, file_name, source.len()),
                source,
                with_reference,
            );
            &&& parts.len() == num_chunks(source.len(), chunk_size)
            &&& joined_bytes(parts) == source
            &&& forall|i: int|
                0 <= i < parts.len() - 1 ==> (#[trigger] parts[i]).bytes.len() == chunk_size
            &&& parts.len() > 0 ==> parts.last().bytes.len() == last_chunk_len(
                source.len(),
                chunk_size,
            )
        }),
{
    let count = num_chunks(source.len(), chunk_size);
    let parts = parts_of_run(
        opened_state(chunk_size, file_name, source.len()),
        source,
        with_reference,
    );
    lemma_run_writes_every_chunk(chunk_size, file_name, source, with_reference);
    lemma_joined_parts_are_joined_chunks(file_name, source, chunk_size, count);
    lemma_chunks_rebuild_source(source, chunk_size);
    assert forall|i: int| 0 <= i < parts.len() implies (#[trigger] parts[i]).bytes.len()
        == chunk_len(source.len(), chunk_size, i as nat) by {
        lemma_chunk_end(source.len(), chunk_size, i as nat);
    }
    assert forall|i: int| 0 <= i < parts.len() - 1 implies (#[trigger] parts[i]).bytes.len()
        == chunk_size by {
        lemma_chunk_len(source.len(), chunk_size, i as nat);
    }
    if count > 0 {
        lemma_chunk_len(source.len(), chunk_size, (count - 1) as nat);
    }
}

} // verus!
