//! Device sessions as data.
//!
//! A [`Session`] is the list of commands that one run on a device consists of. Planners append to
//! it. Every append checks that the command makes sense where it stands: that the buffers it
//! names exist, that no transfer is longer than its buffer, that no buffer of length zero is
//! allocated, and that a kernel gets at most one local buffer. Whether a buffer can be made from
//! no data at all is left to the driver.

use vstd::prelude::*;

verus! {

/// What the elements of a device buffer are.
#[derive(Copy, Clone, Debug, PartialEq, Eq, Structural)]
pub enum Elem {
    /// Bytes.
    Byte,
    /// 16 bit signed digits.
    Digit,
    /// 32 bit words.
    Word,
    /// Scalars that are 32 byte arrays in little-endian order.
    Exponent,
    /// Field elements.
    Scalar,
    /// Affine points in their device representation.
    Base,
    /// Points of the group.
    Point,
}

/// The kernels a session can launch.
#[derive(Copy, Clone, Debug, PartialEq, Eq, Structural)]
pub enum KernelId {
    /// Fixes the lowest variable of a multilinear polynomial.
    FixVar,
    /// Like `FixVar`, with the value taken out of a buffer of values.
    FixVarIndexed,
    /// Fixes the lowest variable and converts the result to scalar bytes.
    FixVarToScalar,
    /// Linear combination of polynomials that lie back to back.
    LinearCombine,
    /// Adds a multiple of one polynomial to another.
    LinearCombineAccumulate,
    /// Witness polynomial, one thread.
    WitnessPolySequential,
    /// Witness polynomials, one thread per point.
    WitnessPolyBatch,
    /// Witness polynomials, first pass: chunks on their own.
    WitnessPolyBatchPhase1,
    /// Witness polynomials, second pass: carries between the chunks.
    WitnessCarryPropagate,
    /// Witness polynomials, third pass: carries into the chunks.
    WitnessPolyBatchPhase3,
    /// Multiplies a polynomial by a scalar.
    ScalePoly,
    /// Adds two polynomials.
    AddPoly,
    /// Subtracts two polynomials.
    SubPoly,
    /// Evaluates polynomials at points.
    EvalUnivariateBatch,
    /// Converts field elements from Montgomery form to little-endian bytes.
    ToScalarBytes,
    /// Like `ToScalarBytes`, starting at an offset.
    ToScalarBytesOffset,
    /// Splits scalars into signed digits.
    PreprocessSignedDigits,
    /// Bucket method with buckets of their own for every thread.
    MultiexpSigned,
    /// Turns signed digits into pairs of bucket and base.
    DecomposeToPairs,
    /// Counts the pairs of each bucket.
    CountBuckets,
    /// Turns counts into offsets and lists the buckets that are not empty.
    PrefixSum,
    /// Sorts the pairs by bucket.
    ScatterToSorted,
    /// Sums the non-empty buckets, one thread each.
    AccumulateSortedBuckets,
    /// Sums all buckets, one thread each.
    AccumulateAllSortedBuckets,
    /// Sums chunks of buckets, one thread each.
    AccumulateChunked,
    /// Adds up the partial sums of each bucket.
    ReducePartialBuckets,
    /// Weighted sums of chunks of buckets.
    ReduceBucketsChunked,
    /// Combines the chunks of each window.
    CombineChunksToWindows,
    /// Combines the windows.
    ReduceWindows,
    /// Copies one point into an array of points.
    CopyAtOffset,
    /// Multiplies one point by many scalars with the help of a table.
    BatchScalarMul,
    /// Sets words to zero.
    U32FillZero,
    /// Copies words.
    U32CopyBuffer,
}

/// An argument of a kernel.
#[derive(Copy, Clone, Debug, PartialEq, Eq, Structural)]
pub enum Arg {
    /// The buffer in the given slot.
    Buffer(usize),
    /// A number.
    Word(u32),
    /// Memory local to a thread group, as long as this many points.
    LocalPoints(usize),
}

/// Data that goes from the host to the device.
#[derive(Debug)]
pub enum HostData<'a, F, B> {
    /// Borrowed field elements.
    Scalars(&'a [F]),
    /// Owned field elements.
    ScalarVec(Vec<F>),
    /// Borrowed bases.
    Bases(&'a [B]),
    /// Owned bases.
    BaseVec(Vec<B>),
    /// Scalars as bytes.
    Exponents(Vec<[u8; 32]>),
    /// Words.
    Words(Vec<u32>),
    /// This many words that are zero.
    ZeroWords(usize),
    /// This many copies of the neutral element of the group.
    Identities(usize),
}

/// A command of a session.
#[derive(Debug)]
pub enum Command<'a, F, B> {
    /// Create a buffer whose contents do not matter.
    Alloc { slot: usize, elem: Elem, len: usize },
    /// Create a buffer from data.
    Upload { slot: usize, data: HostData<'a, F, B> },
    /// Overwrite the beginning of a buffer.
    Write { slot: usize, data: HostData<'a, F, B> },
    /// Run a kernel on `global` thread groups of `local` threads each.
    Launch { kernel: KernelId, global: usize, local: usize, args: Vec<Arg> },
    /// Hand the first `len` elements of a buffer to the host.
    Read { slot: usize, elem: Elem, len: usize },
    /// Release a buffer.
    Free { slot: usize },
}

/// The mathematical content of [`HostData`].
#[verifier::ext_equal]
pub enum DataView<F, B> {
    Scalars(Seq<F>),
    Bases(Seq<B>),
    Exponents(Seq<Seq<u8>>),
    Words(Seq<u32>),
    Identities(nat),
}

/// The mathematical content of a [`Command`].
#[verifier::ext_equal]
pub enum Cmd<F, B> {
    Alloc { slot: usize, elem: Elem, len: nat },
    Upload { slot: usize, data: DataView<F, B> },
    Write { slot: usize, data: DataView<F, B> },
    Launch { kernel: KernelId, global: nat, local: nat, args: Seq<Arg> },
    Read { slot: usize, elem: Elem, len: nat },
    Free { slot: usize },
}

impl<F, B> DataView<F, B> {
    /// The number of elements.
    pub open spec fn len(self) -> nat {
        match self {
            DataView::Scalars(s) => s.len(),
            DataView::Bases(s) => s.len(),
            DataView::Exponents(s) => s.len(),
            DataView::Words(s) => s.len(),
            DataView::Identities(n) => n,
        }
    }

    /// The kind of the elements.
    pub open spec fn elem(self) -> Elem {
        match self {
            DataView::Scalars(_) => Elem::Scalar,
            DataView::Bases(_) => Elem::Base,
            DataView::Exponents(_) => Elem::Exponent,
            DataView::Words(_) => Elem::Word,
            DataView::Identities(_) => Elem::Point,
        }
    }
}

impl<'a, F, B> View for HostData<'a, F, B> {
    type V = DataView<F, B>;

    open spec fn view(&self) -> DataView<F, B> {
        match self {
            HostData::Scalars(s) => DataView::Scalars(s@),
            HostData::ScalarVec(s) => DataView::Scalars(s@),
            HostData::Bases(s) => DataView::Bases(s@),
            HostData::BaseVec(s) => DataView::Bases(s@),
            HostData::Exponents(s) => DataView::Exponents(s@.map_values(|e: [u8; 32]| e@)),
            HostData::Words(s) => DataView::Words(s@),
            HostData::ZeroWords(n) => DataView::Words(Seq::new(*n as nat, |i: int| 0u32)),
            HostData::Identities(n) => DataView::Identities(*n as nat),
        }
    }
}

impl<'a, F, B> View for Command<'a, F, B> {
    type V = Cmd<F, B>;

    open spec fn view(&self) -> Cmd<F, B> {
        match self {
            Command::Alloc { slot, elem, len } => Cmd::Alloc {
                slot: *slot,
                elem: *elem,
                len: *len as nat,
            },
            Command::Upload { slot, data } => Cmd::Upload { slot: *slot, data: data@ },
            Command::Write { slot, data } => Cmd::Write { slot: *slot, data: data@ },
            Command::Launch { kernel, global, local, args } => Cmd::Launch {
                kernel: *kernel,
                global: *global as nat,
                local: *local as nat,
                args: args@,
            },
            Command::Read { slot, elem, len } => Cmd::Read {
                slot: *slot,
                elem: *elem,
                len: *len as nat,
            },
            Command::Free { slot } => Cmd::Free { slot: *slot },
        }
    }
}

/// The buffers of a device: the kind and the number of the elements, by slot.
pub type Buffers = Map<usize, (Elem, nat)>;

/// The buffers after a command.
pub open spec fn apply<F, B>(buffers: Buffers, cmd: Cmd<F, B>) -> Buffers {
    match cmd {
        Cmd::Alloc { slot, elem, len } => buffers.insert(slot, (elem, len)),
        Cmd::Upload { slot, data } => buffers.insert(slot, (data.elem(), data.len())),
        Cmd::Write { .. } => buffers,
        Cmd::Launch { .. } => buffers,
        Cmd::Read { .. } => buffers,
        Cmd::Free { slot } => buffers.remove(slot),
    }
}

/// Whether there is at most one local buffer among the arguments.
pub open spec fn one_local(args: Seq<Arg>) -> bool {
    forall|i: int, j: int|
        0 <= i < args.len() && 0 <= j < args.len() && (#[trigger] args[i]) is LocalPoints && (
        #[trigger] args[j]) is LocalPoints ==> i == j
}

/// Whether a command can be executed on a device with these buffers.
pub open spec fn allowed<F, B>(buffers: Buffers, cmd: Cmd<F, B>) -> bool {
    match cmd {
        Cmd::Alloc { slot, elem, len } => len > 0,
        Cmd::Upload { slot, data } => true,
        Cmd::Write { slot, data } => {
            &&& buffers.contains_key(slot)
            &&& buffers[slot].0 == data.elem()
            &&& data.len() <= buffers[slot].1
        },
        Cmd::Launch { kernel, global, local, args } => {
            &&& forall|i: int|
                0 <= i < args.len() ==> ((#[trigger] args[i]) matches Arg::Buffer(s)
                    ==> buffers.contains_key(s))
            &&& one_local(args)
            &&& local > 0
        },
        Cmd::Read { slot, elem, len } => {
            &&& buffers.contains_key(slot)
            &&& buffers[slot].0 == elem
            &&& len <= buffers[slot].1
        },
        Cmd::Free { slot } => buffers.contains_key(slot),
    }
}

/// The buffers that exist after a list of commands, starting with none.
pub open spec fn buffers_after<F, B>(log: Seq<Cmd<F, B>>) -> Buffers
    decreases log.len(),
{
    if log.len() == 0 {
        Map::empty()
    } else {
        apply(buffers_after(log.drop_last()), log.last())
    }
}

/// Whether every command of a list can be executed where it stands.
pub open spec fn runnable<F, B>(log: Seq<Cmd<F, B>>) -> bool
    decreases log.len(),
{
    log.len() == 0 || (runnable(log.drop_last()) && allowed(
        buffers_after(log.drop_last()),
        log.last(),
    ))
}

/// In a runnable list, every command is allowed after those before it.
pub proof fn runnable_everywhere<F, B>(log: Seq<Cmd<F, B>>, i: int)
    requires
        runnable(log),
        0 <= i < log.len(),
    ensures
        allowed(buffers_after(log.take(i)), log[i]),
    decreases log.len(),
{
    if i == log.len() - 1 {
        assert(log.take(i) =~= log.drop_last());
    } else {
        runnable_everywhere(log.drop_last(), i);
        assert(log.drop_last().take(i) =~= log.take(i));
    }
}

/// Whether a command makes the host wait for data.
pub open spec fn waits<F, B>(c: Cmd<F, B>) -> bool {
    c is Read
}

/// Whether a command brings bases to the device.
pub open spec fn loads_bases<F, B>(c: Cmd<F, B>) -> bool {
    (c is Upload && c->Upload_data is Bases) || (c is Write && c->Write_data is Bases)
}

/// Whether all commands are kernel launches.
pub open spec fn all_launches<F, B>(s: Seq<Cmd<F, B>>) -> bool {
    forall|i: int| 0 <= i < s.len() ==> (#[trigger] s[i]) is Launch
}

/// Whether no command makes the host wait for data.
pub open spec fn never_waits<F, B>(s: Seq<Cmd<F, B>>) -> bool {
    forall|i: int| 0 <= i < s.len() ==> !waits(#[trigger] s[i])
}

/// Whether no command brings bases to the device.
pub open spec fn never_loads_bases<F, B>(s: Seq<Cmd<F, B>>) -> bool {
    forall|i: int| 0 <= i < s.len() ==> !loads_bases(#[trigger] s[i])
}

/// Whether a command brings field elements from the host to the device.
pub open spec fn loads_scalars<F, B>(c: Cmd<F, B>) -> bool {
    (c is Upload && c->Upload_data is Scalars) || (c is Write && c->Write_data is Scalars)
}

/// Whether a command hands field elements to the host.
pub open spec fn reads_scalars<F, B>(c: Cmd<F, B>) -> bool {
    c is Read && c->Read_elem == Elem::Scalar
}

/// Whether no command moves bases or field elements between host and device.
pub open spec fn keeps_data<F, B>(s: Seq<Cmd<F, B>>) -> bool {
    forall|i: int|
        0 <= i < s.len() ==> {
            &&& !loads_bases(#[trigger] s[i])
            &&& !loads_scalars(s[i])
            &&& !reads_scalars(s[i])
        }
}

/// A run on a device.
pub struct Session<'a, F, B> {
    commands: Vec<Command<'a, F, B>>,
}

impl<'a, F, B> View for Session<'a, F, B> {
    type V = Seq<Cmd<F, B>>;

    closed spec fn view(&self) -> Seq<Cmd<F, B>> {
        self.commands@.map_values(|c: Command<'a, F, B>| c@)
    }
}

impl<'a, F, B> Session<'a, F, B> {
    /// Every command can be executed where it stands.
    pub open spec fn wf(&self) -> bool {
        runnable(self@)
    }

    /// The buffers that exist at the end.
    pub open spec fn buffers(&self) -> Buffers {
        buffers_after(self@)
    }

    /// An empty session.
    pub fn new() -> (s: Self)
        ensures
            s.wf(),
            s@ == Seq::<Cmd<F, B>>::empty(),
            s.buffers() == Buffers::empty(),
    {
        let s = Session { commands: Vec::new() };
        assert(s@ =~= Seq::<Cmd<F, B>>::empty());
        s
    }

    /// The commands recorded so far.
    pub fn commands(&self) -> (r: &Vec<Command<'a, F, B>>)
        ensures
            r@.map_values(|c: Command<'a, F, B>| c@) == self@,
    {
        &self.commands
    }

    /// The number of commands recorded so far.
    pub fn len(&self) -> (r: usize)
        ensures
            r == self@.len(),
    {
        self.commands.len()
    }

    fn record(&mut self, command: Command<'a, F, B>)
        requires
            old(self).wf(),
            allowed(old(self).buffers(), command@),
        ensures
            final(self).wf(),
            final(self)@ == old(self)@.push(command@),
            final(self).buffers() == apply(old(self).buffers(), command@),
    {
        self.commands.push(command);
        proof {
            assert(self@ =~= old(self)@.push(command@));
            assert(self@.drop_last() =~= old(self)@);
        }
    }

    /// Create a buffer whose contents do not matter.
    pub fn create_buffer(&mut self, slot: usize, elem: Elem, len: usize)
        requires
            old(self).wf(),
            len > 0,
        ensures
            final(self).wf(),
            final(self)@ == old(self)@.push(Cmd::Alloc { slot, elem, len: len as nat }),
            final(self).buffers() == old(self).buffers().insert(slot, (elem, len as nat)),
    {
        self.record(Command::Alloc { slot, elem, len });
    }

    /// Create a buffer from data.
    pub fn create_buffer_from(&mut self, slot: usize, data: HostData<'a, F, B>)
        requires
            old(self).wf(),
        ensures
            final(self).wf(),
            final(self)@ == old(self)@.push(Cmd::Upload { slot, data: data@ }),
            final(self).buffers() == old(self).buffers().insert(
                slot,
                (data@.elem(), data@.len()),
            ),
    {
        self.record(Command::Upload { slot, data });
    }

    /// Overwrite the beginning of a buffer.
    pub fn write_buffer(&mut self, slot: usize, data: HostData<'a, F, B>)
        requires
            old(self).wf(),
            old(self).buffers().contains_key(slot),
            old(self).buffers()[slot].0 == data@.elem(),
            data@.len() <= old(self).buffers()[slot].1,
        ensures
            final(self).wf(),
            final(self)@ == old(self)@.push(Cmd::Write { slot, data: data@ }),
            final(self).buffers() == old(self).buffers(),
    {
        self.record(Command::Write { slot, data });
    }

    /// Run a kernel on `global` thread groups of `local` threads each.
    pub fn launch(&mut self, kernel: KernelId, global: usize, local: usize, args: Vec<Arg>)
        requires
            old(self).wf(),
            forall|i: int|
                0 <= i < args@.len() ==> ((#[trigger] args@[i]) matches Arg::Buffer(s)
                    ==> old(self).buffers().contains_key(s)),
            one_local(args@),
            local > 0,
        ensures
            final(self).wf(),
            final(self)@ == old(self)@.push(
                Cmd::Launch {
                    kernel,
                    global: global as nat,
                    local: local as nat,
                    args: args@,
                },
            ),
            final(self).buffers() == old(self).buffers(),
    {
        self.record(Command::Launch { kernel, global, local, args });
    }

    /// Hand the first `len` elements of a buffer to the host.
    pub fn read_buffer(&mut self, slot: usize, elem: Elem, len: usize)
        requires
            old(self).wf(),
            old(self).buffers().contains_key(slot),
            old(self).buffers()[slot].0 == elem,
            len <= old(self).buffers()[slot].1,
        ensures
            final(self).wf(),
            final(self)@ == old(self)@.push(Cmd::Read { slot, elem, len: len as nat }),
            final(self).buffers() == old(self).buffers(),
    {
        self.record(Command::Read { slot, elem, len });
    }

    /// Release a buffer.
    pub fn free(&mut self, slot: usize)
        requires
            old(self).wf(),
            old(self).buffers().contains_key(slot),
        ensures
            final(self).wf(),
            final(self)@ == old(self)@.push(Cmd::Free { slot }),
            final(self).buffers() == old(self).buffers().remove(slot),
    {
        self.record(Command::Free { slot });
    }
}

} // verus!
