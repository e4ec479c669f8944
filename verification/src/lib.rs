//! Resumable operations for driving a boot-ROM serial protocol.
//!
//! Every protocol exchange is written as a state machine that never performs
//! transport work itself: each call to [`Operation::step`] either requests one
//! unit of IO from the surrounding driver, or reports a terminal result.  Read
//! results are handed back to the machine on the following `step` call, so the
//! same operation can be driven by a blocking loop or a suspending loop.

use vstd::prelude::*;

verus! {

/// Errors reported by the boot-ROM protocol itself.
#[derive(Debug, Clone, Copy, PartialEq, Eq, Structural)]
pub enum BromError {
    /// The device read back different bytes than were written to it.
    IncorrectEchoResponse,
    /// A synchronization byte was not answered with its bitwise complement.
    IncorrectHandshakeResponse,
    /// The device reported a non-zero 16-bit status code.
    UnexpectedStatus(u16),
}

/// One unit of transport work requested from the driver.
#[derive(Debug)]
pub enum Io {
    /// Read exactly this many bytes; feed them back on the next `step` call.
    ReadData(usize),
    /// Write all of these bytes; the next `step` call takes no input.
    WriteData(Vec<u8>),
}

/// What an operation reports after one `step` call.
#[derive(Debug)]
pub enum Step<T> {
    /// The operation needs the requested IO before it can continue.
    Io(Io),
    /// The operation is finished and must not be stepped again.
    Done(Result<T, BromError>),
}

/// Ghost description of what a single `step` call emits.
pub enum Emit<V> {
    /// Request to write these bytes.
    WriteData(Seq<u8>),
    /// Request to read this many bytes.
    ReadData(nat),
    /// Terminal success carrying the operation's value.
    Finish(V),
    /// Terminal failure.
    Abort(BromError),
}

/// The executable step agrees with its ghost description.
pub open spec fn emit_matches<V>(s: Step<V>, e: Emit<V>) -> bool {
    match e {
        Emit::WriteData(bytes) => s matches Step::Io(Io::WriteData(w)) && w@ == bytes,
        Emit::ReadData(n) => s matches Step::Io(Io::ReadData(m)) && m as nat == n,
        Emit::Finish(v) => s matches Step::Done(Result::Ok(u)) && u == v,
        Emit::Abort(err) => s matches Step::Done(Result::Err(e2)) && e2 == err,
    }
}

/// The input handed to `step` is exactly the read result the operation asked
/// for: absent unless a read was requested, and then of the requested length.
pub open spec fn input_fits(pending: Option<nat>, input: Option<Vec<u8>>) -> bool {
    match (pending, input) {
        (None, None) => true,
        (Some(n), Some(v)) => v@.len() == n,
        _ => false,
    }
}

/// The read length that a step's emission leaves outstanding.
pub open spec fn next_pending<V>(e: Emit<V>) -> Option<nat> {
    match e {
        Emit::ReadData(n) => Some(n),
        _ => None,
    }
}

/// Whether an emission ends the operation.
pub open spec fn emit_terminal<V>(e: Emit<V>) -> bool {
    e matches Emit::Finish(_) || e matches Emit::Abort(_)
}

/// A resumable, single-use protocol state machine.
///
/// `step` advances the machine by exactly one unit of progress.  It performs
/// no IO itself: it only describes the IO it wants.  The ghost functions
/// `tick` and `emit` determine the machine completely, so its behaviour is a
/// function of the read results fed into it and nothing else.
pub trait Operation: Sized {
    /// The value produced on successful completion.
    type Value;

    /// Well-formedness of the machine's state.
    spec fn inv(self) -> bool;

    /// The machine has reported `Done` and must not be stepped again.
    spec fn is_done(self) -> bool;

    /// Length of the read whose result the next `step` call must carry.
    spec fn pending(self) -> Option<nat>;

    /// Upper bound on the number of steps left.
    spec fn fuel(self) -> nat;

    /// The state after one step on the given input.
    spec fn tick(self, input: Option<Vec<u8>>) -> Self;

    /// What one step on the given input emits.
    spec fn emit(self, input: Option<Vec<u8>>) -> Emit<Self::Value>;

    /// Advance by one unit of progress.
    fn step(&mut self, input: Option<Vec<u8>>) -> (s: Step<Self::Value>)
        requires
            old(self).inv(),
            !old(self).is_done(),
            input_fits(old(self).pending(), input),
        ensures
            final(self).inv(),
            *final(self) == old(self).tick(input),
            emit_matches(s, old(self).emit(input)),
            final(self).is_done() == emit_terminal(old(self).emit(input)),
            final(self).pending() == next_pending(old(self).emit(input)),
            !final(self).is_done() ==> final(self).fuel() < old(self).fuel(),
    ;
}

/// Sequencing of two operations: run `a`, discard its value, then run `b`.
/// Any failure of `a` ends the whole operation before `b` is consulted.
pub struct Chain<A, B> {
    a: A,
    b: B,
    a_done: bool,
}

/// The state of a freshly built [`Chain`].
pub closed spec fn chain_init<A: Operation, B: Operation>(a: A, b: B) -> Chain<A, B> {
    Chain { a, b, a_done: false }
}

impl<A: Operation, B: Operation> Chain<A, B> {
    /// Sequence `a` before `b`: run `a` to completion, discard its value,
    /// then run `b`.
    pub fn new(a: A, b: B) -> (r: Self)
        ensures
            r == chain_init(a, b),
    {
        Chain { a, b, a_done: false }
    }
}

impl<A: Operation, B: Operation> Operation for Chain<A, B> {
    type Value = B::Value;

    closed spec fn inv(self) -> bool {
        &&& self.a.inv()
        &&& self.b.inv()
        &&& !self.a_done ==> !self.b.is_done() && self.b.pending() is None
        &&& self.a_done ==> self.a.is_done()
    }

    closed spec fn is_done(self) -> bool {
        (!self.a_done && self.a.is_done()) || (self.a_done && self.b.is_done())
    }

    closed spec fn pending(self) -> Option<nat> {
        if !self.a_done {
            self.a.pending()
        } else {
            self.b.pending()
        }
    }

    closed spec fn fuel(self) -> nat {
        if !self.a_done {
            self.a.fuel() + self.b.fuel() + 1
        } else {
            self.b.fuel()
        }
    }

    closed spec fn tick(self, input: Option<Vec<u8>>) -> Self {
        if !self.a_done {
            match self.a.emit(input) {
                Emit::Finish(_) => Chain {
                    a: self.a.tick(input),
                    b: self.b.tick(None),
                    a_done: true,
                },
                _ => Chain { a: self.a.tick(input), b: self.b, a_done: false },
            }
        } else {
            Chain { a: self.a, b: self.b.tick(input), a_done: true }
        }
    }

    closed spec fn emit(self, input: Option<Vec<u8>>) -> Emit<B::Value> {
        if !self.a_done {
            match self.a.emit(input) {
                Emit::WriteData(w) => Emit::WriteData(w),
                Emit::ReadData(n) => Emit::ReadData(n),
                Emit::Abort(e) => Emit::Abort(e),
                Emit::Finish(_) => self.b.emit(None),
            }
        } else {
            self.b.emit(input)
        }
    }

    fn step(&mut self, input: Option<Vec<u8>>) -> (s: Step<B::Value>) {
        if !self.a_done {
            match self.a.step(input) {
                Step::Io(io) => Step::Io(io),
                Step::Done(Result::Err(e)) => Step::Done(Result::Err(e)),
                Step::Done(Result::Ok(_)) => {
                    self.a_done = true;
                    self.b.step(None)
                }
            }
        } else {
            self.b.step(input)
        }
    }
}

/// A `Vec` holding a single byte.
fn byte_vec(b: u8) -> (r: Vec<u8>)
    ensures
        r@ == seq![b],
{
    let mut v: Vec<u8> = Vec::new();
    v.push(b);
    assert(v@ =~= seq![b]);
    v
}

/// A copy of the given bytes.
fn clone_bytes(v: &Vec<u8>) -> (r: Vec<u8>)
    ensures
        r@ == v@,
{
    let mut r: Vec<u8> = Vec::new();
    let mut i: usize = 0;
    while i < v.len()
        invariant
            i <= v.len(),
            r@ == v@.take(i as int),
        decreases v.len() - i,
    {
        r.push(v[i]);
        assert(r@ =~= v@.take(i as int + 1));
        i = i + 1;
    }
    assert(r@ =~= v@);
    r
}

/// Byte-for-byte equality of two byte vectors.
fn bytes_eq(a: &Vec<u8>, b: &Vec<u8>) -> (r: bool)
    ensures
        r == (a@ == b@),
{
    if a.len() != b.len() {
        assert(a@ != b@) by {
            assert(a@.len() != b@.len());
        }
        return false;
    }
    let mut i: usize = 0;
    while i < a.len()
        invariant
            i <= a.len(),
            a@.len() == b@.len(),
            forall|j: int| 0 <= j < i ==> a@[j] == b@[j],
        decreases a.len() - i,
    {
        if a[i] != b[i] {
            return false;
        }
        i = i + 1;
    }
    assert(a@ =~= b@);
    true
}

/// The byte sequence of the fixed synchronization exchange.
pub open spec fn handshake_byte(i: int) -> u8 {
    if i == 0 {
        0xa0
    } else if i == 1 {
        0x0a
    } else if i == 2 {
        0x50
    } else {
        0x05
    }
}

/// The bitwise complement of a byte, which the device must answer with
/// during synchronization.
pub open spec fn complement(b: u8) -> u8 {
    (0xff - b) as u8
}

/// A 32-bit value as four big-endian bytes.
pub open spec fn be32_seq(x: u32) -> Seq<u8> {
    seq![
        (x / 0x1000000) as u8,
        ((x / 0x10000) % 0x100) as u8,
        ((x / 0x100) % 0x100) as u8,
        (x % 0x100) as u8,
    ]
}

/// Two bytes read as one big-endian 16-bit value.
pub open spec fn be16(hi: u8, lo: u8) -> u16 {
    (hi * 0x100 + lo) as u16
}

/// Encode a 32-bit value as four big-endian bytes.
fn be32(x: u32) -> (r: Vec<u8>)
    ensures
        r@ == be32_seq(x),
{
    let mut v: Vec<u8> = Vec::new();
    v.push((x / 0x1000000) as u8);
    v.push((x / 0x10000 % 0x100) as u8);
    v.push((x / 0x100 % 0x100) as u8);
    v.push((x % 0x100) as u8);
    assert(v@ =~= be32_seq(x));
    v
}

#[derive(Clone, Copy, PartialEq, Eq, Structural, Debug)]
enum HsPhase {
    /// Nothing exchanged yet: the first synchronization byte is owed.
    Start,
    /// A byte was written; the read of its answer must be requested.
    AwaitReq,
    /// The read was requested; the next step carries the answer.
    AwaitData,
    /// A terminal result was reported.
    Finished,
}

/// The multi-byte synchronization handshake: each of four fixed bytes is
/// written in turn and must be answered with its bitwise complement; the
/// first wrong answer ends the operation at once.
pub struct HandShake {
    idx: usize,
    phase: HsPhase,
}

/// The state of a fresh [`HandShake`].
pub closed spec fn handshake_leaf_init() -> HandShake {
    HandShake { idx: 0, phase: HsPhase::Start }
}

impl HandShake {
    /// Begin a synchronization handshake.
    pub fn new() -> (r: Self)
        ensures
            r == handshake_leaf_init(),
    {
        HandShake { idx: 0, phase: HsPhase::Start }
    }
}

impl Operation for HandShake {
    type Value = ();

    closed spec fn inv(self) -> bool {
        !(self.phase is Finished) ==> self.idx < 4
    }

    closed spec fn is_done(self) -> bool {
        self.phase is Finished
    }

    closed spec fn pending(self) -> Option<nat> {
        if self.phase is AwaitData {
            Some(1)
        } else {
            None
        }
    }

    closed spec fn fuel(self) -> nat {
        match self.phase {
            HsPhase::Start => 9,
            HsPhase::AwaitReq => if self.idx < 4 {
                (8 - 2 * self.idx) as nat
            } else {
                0
            },
            HsPhase::AwaitData => if self.idx < 4 {
                (7 - 2 * self.idx) as nat
            } else {
                0
            },
            HsPhase::Finished => 0,
        }
    }

    closed spec fn tick(self, input: Option<Vec<u8>>) -> Self {
        match self.phase {
            HsPhase::Start => HandShake { idx: self.idx, phase: HsPhase::AwaitReq },
            HsPhase::AwaitReq => HandShake { idx: self.idx, phase: HsPhase::AwaitData },
            HsPhase::AwaitData => match input {
                Some(v) => if v@[0] == complement(handshake_byte(self.idx as int)) && self.idx
                    < 3 {
                    HandShake { idx: (self.idx + 1) as usize, phase: HsPhase::AwaitReq }
                } else {
                    HandShake { idx: self.idx, phase: HsPhase::Finished }
                },
                None => HandShake { idx: self.idx, phase: HsPhase::Finished },
            },
            HsPhase::Finished => self,
        }
    }

    closed spec fn emit(self, input: Option<Vec<u8>>) -> Emit<()> {
        match self.phase {
            HsPhase::Start => Emit::WriteData(seq![handshake_byte(0)]),
            HsPhase::AwaitReq => Emit::ReadData(1),
            HsPhase::AwaitData => match input {
                Some(v) => if v@[0] != complement(handshake_byte(self.idx as int)) {
                    Emit::Abort(BromError::IncorrectHandshakeResponse)
                } else if self.idx == 3 {
                    Emit::Finish(())
                } else {
                    Emit::WriteData(seq![handshake_byte(self.idx + 1)])
                },
                None => Emit::Abort(BromError::IncorrectHandshakeResponse),
            },
            HsPhase::Finished => Emit::Abort(BromError::IncorrectHandshakeResponse),
        }
    }

    fn step(&mut self, input: Option<Vec<u8>>) -> (s: Step<()>) {
        match self.phase {
            HsPhase::Start => {
                self.phase = HsPhase::AwaitReq;
                Step::Io(Io::WriteData(byte_vec(0xa0)))
            }
            HsPhase::AwaitReq => {
                self.phase = HsPhase::AwaitData;
                Step::Io(Io::ReadData(1))
            }
            HsPhase::AwaitData => {
                let v = input.unwrap();
                let b: u8 = if self.idx == 0 {
                    0xa0
                } else if self.idx == 1 {
                    0x0a
                } else if self.idx == 2 {
                    0x50
                } else {
                    0x05
                };
                assert(b == handshake_byte(self.idx as int));
                if v[0] != 0xff - b {
                    self.phase = HsPhase::Finished;
                    Step::Done(Result::Err(BromError::IncorrectHandshakeResponse))
                } else if self.idx == 3 {
                    self.phase = HsPhase::Finished;
                    Step::Done(Result::Ok(()))
                } else {
                    self.idx = self.idx + 1;
                    self.phase = HsPhase::AwaitReq;
                    let nb: u8 = if self.idx == 1 {
                        0x0a
                    } else if self.idx == 2 {
                        0x50
                    } else {
                        0x05
                    };
                    assert(nb == handshake_byte(self.idx as int));
                    Step::Io(Io::WriteData(byte_vec(nb)))
                }
            }
            HsPhase::Finished => {
                // Unreachable: `step` may not be called once the operation is done.
                Step::Done(Result::Err(BromError::IncorrectHandshakeResponse))
            }
        }
    }
}

#[derive(Clone, Copy, PartialEq, Eq, Structural, Debug)]
enum RwPhase {
    /// The IO request is still owed.
    Start,
    /// The request was issued; a read result may be owed.
    Requested,
    /// A terminal result was reported.
    Finished,
}

/// A one-shot read of a fixed number of bytes, returned verbatim.
pub struct FixedRead {
    n: usize,
    phase: RwPhase,
}

/// The state of a fresh [`FixedRead`].
pub closed spec fn fixed_read_init(n: usize) -> FixedRead {
    FixedRead { n, phase: RwPhase::Start }
}

impl FixedRead {
    /// Request to read exactly `n` bytes.
    pub fn new(n: usize) -> (r: Self)
        ensures
            r == fixed_read_init(n),
    {
        FixedRead { n, phase: RwPhase::Start }
    }
}

impl Operation for FixedRead {
    type Value = Vec<u8>;

    closed spec fn inv(self) -> bool {
        true
    }

    closed spec fn is_done(self) -> bool {
        self.phase is Finished
    }

    closed spec fn pending(self) -> Option<nat> {
        if self.phase is Requested {
            Some(self.n as nat)
        } else {
            None
        }
    }

    closed spec fn fuel(self) -> nat {
        match self.phase {
            RwPhase::Start => 2,
            RwPhase::Requested => 1,
            RwPhase::Finished => 0,
        }
    }

    closed spec fn tick(self, input: Option<Vec<u8>>) -> Self {
        match self.phase {
            RwPhase::Start => FixedRead { n: self.n, phase: RwPhase::Requested },
            RwPhase::Requested => FixedRead { n: self.n, phase: RwPhase::Finished },
            RwPhase::Finished => self,
        }
    }

    closed spec fn emit(self, input: Option<Vec<u8>>) -> Emit<Vec<u8>> {
        match self.phase {
            RwPhase::Start => Emit::ReadData(self.n as nat),
            RwPhase::Requested => match input {
                Some(v) => Emit::Finish(v),
                None => Emit::Abort(BromError::IncorrectEchoResponse),
            },
            RwPhase::Finished => Emit::Abort(BromError::IncorrectEchoResponse),
        }
    }

    fn step(&mut self, input: Option<Vec<u8>>) -> (s: Step<Vec<u8>>) {
        match self.phase {
            RwPhase::Start => {
                self.phase = RwPhase::Requested;
                Step::Io(Io::ReadData(self.n))
            }
            RwPhase::Requested => {
                self.phase = RwPhase::Finished;
                Step::Done(Result::Ok(input.unwrap()))
            }
            RwPhase::Finished => {
                // Unreachable: `step` may not be called once the operation is done.
                Step::Done(Result::Err(BromError::IncorrectEchoResponse))
            }
        }
    }
}

/// A one-shot write of the given bytes, completing with no value.
pub struct WriteData {
    data: Vec<u8>,
    phase: RwPhase,
}

/// The state of a fresh [`WriteData`].
pub closed spec fn write_data_init(data: Vec<u8>) -> WriteData {
    WriteData { data, phase: RwPhase::Start }
}

impl WriteData {
    /// Request to write exactly the given bytes.
    pub fn new(data: Vec<u8>) -> (r: Self)
        ensures
            r == write_data_init(data),
    {
        WriteData { data, phase: RwPhase::Start }
    }
}

impl Operation for WriteData {
    type Value = ();

    closed spec fn inv(self) -> bool {
        true
    }

    closed spec fn is_done(self) -> bool {
        self.phase is Finished
    }

    closed spec fn pending(self) -> Option<nat> {
        None
    }

    closed spec fn fuel(self) -> nat {
        match self.phase {
            RwPhase::Start => 2,
            RwPhase::Requested => 1,
            RwPhase::Finished => 0,
        }
    }

    closed spec fn tick(self, input: Option<Vec<u8>>) -> Self {
        match self.phase {
            RwPhase::Start => WriteData { data: self.data, phase: RwPhase::Requested },
            RwPhase::Requested => WriteData { data: self.data, phase: RwPhase::Finished },
            RwPhase::Finished => self,
        }
    }

    closed spec fn emit(self, input: Option<Vec<u8>>) -> Emit<()> {
        match self.phase {
            RwPhase::Start => Emit::WriteData(self.data@),
            RwPhase::Requested => Emit::Finish(()),
            RwPhase::Finished => Emit::Abort(BromError::IncorrectEchoResponse),
        }
    }

    fn step(&mut self, input: Option<Vec<u8>>) -> (s: Step<()>) {
        match self.phase {
            RwPhase::Start => {
                self.phase = RwPhase::Requested;
                let out = clone_bytes(&self.data);
                Step::Io(Io::WriteData(out))
            }
            RwPhase::Requested => {
                self.phase = RwPhase::Finished;
                Step::Done(Result::Ok(()))
            }
            RwPhase::Finished => {
                // Unreachable: `step` may not be called once the operation is done.
                Step::Done(Result::Err(BromError::IncorrectEchoResponse))
            }
        }
    }
}

#[derive(Clone, Copy, PartialEq, Eq, Structural, Debug)]
enum EchoPhase {
    /// The command bytes are still owed to the device.
    Start,
    /// The bytes were written; the read-back must be requested.
    AwaitReq,
    /// The read-back was requested; the next step carries it.
    AwaitData,
    /// A terminal result was reported.
    Finished,
}

/// Write bytes, read the same number back, and require them to be identical:
/// the device's confirmation pattern for every command and parameter.
pub struct Echo {
    out: Vec<u8>,
    phase: EchoPhase,
}

/// The state of a fresh [`Echo`].
pub closed spec fn echo_init(out: Vec<u8>) -> Echo {
    Echo { out, phase: EchoPhase::Start }
}

impl Echo {
    /// Write `out` and require the device to echo it back exactly.
    pub fn new(out: Vec<u8>) -> (r: Self)
        ensures
            r == echo_init(out),
    {
        Echo { out, phase: EchoPhase::Start }
    }
}

impl Operation for Echo {
    type Value = ();

    closed spec fn inv(self) -> bool {
        true
    }

    closed spec fn is_done(self) -> bool {
        self.phase is Finished
    }

    closed spec fn pending(self) -> Option<nat> {
        if self.phase is AwaitData {
            Some(self.out@.len())
        } else {
            None
        }
    }

    closed spec fn fuel(self) -> nat {
        match self.phase {
            EchoPhase::Start => 3,
            EchoPhase::AwaitReq => 2,
            EchoPhase::AwaitData => 1,
            EchoPhase::Finished => 0,
        }
    }

    closed spec fn tick(self, input: Option<Vec<u8>>) -> Self {
        match self.phase {
            EchoPhase::Start => Echo { out: self.out, phase: EchoPhase::AwaitReq },
            EchoPhase::AwaitReq => Echo { out: self.out, phase: EchoPhase::AwaitData },
            EchoPhase::AwaitData => Echo { out: self.out, phase: EchoPhase::Finished },
            EchoPhase::Finished => self,
        }
    }

    closed spec fn emit(self, input: Option<Vec<u8>>) -> Emit<()> {
        match self.phase {
            EchoPhase::Start => Emit::WriteData(self.out@),
            EchoPhase::AwaitReq => Emit::ReadData(self.out@.len()),
            EchoPhase::AwaitData => match input {
                Some(v) => if v@ == self.out@ {
                    Emit::Finish(())
                } else {
                    Emit::Abort(BromError::IncorrectEchoResponse)
                },
                None => Emit::Abort(BromError::IncorrectEchoResponse),
            },
            EchoPhase::Finished => Emit::Abort(BromError::IncorrectEchoResponse),
        }
    }

    fn step(&mut self, input: Option<Vec<u8>>) -> (s: Step<()>) {
        match self.phase {
            EchoPhase::Start => {
                self.phase = EchoPhase::AwaitReq;
                let out = clone_bytes(&self.out);
                Step::Io(Io::WriteData(out))
            }
            EchoPhase::AwaitReq => {
                self.phase = EchoPhase::AwaitData;
                Step::Io(Io::ReadData(self.out.len()))
            }
            EchoPhase::AwaitData => {
                self.phase = EchoPhase::Finished;
                let v = input.unwrap();
                if bytes_eq(&v, &self.out) {
                    Step::Done(Result::Ok(()))
                } else {
                    Step::Done(Result::Err(BromError::IncorrectEchoResponse))
                }
            }
            EchoPhase::Finished => {
                // Unreachable: `step` may not be called once the operation is done.
                Step::Done(Result::Err(BromError::IncorrectEchoResponse))
            }
        }
    }
}

/// Read the device's two status bytes, big-endian: zero is success, anything
/// else is surfaced as [`BromError::UnexpectedStatus`].
pub struct CheckStatus {
    phase: RwPhase,
}

/// The state of a fresh [`CheckStatus`].
pub closed spec fn check_status_init() -> CheckStatus {
    CheckStatus { phase: RwPhase::Start }
}

impl CheckStatus {
    /// Begin a status check.
    pub fn new() -> (r: Self)
        ensures
            r == check_status_init(),
    {
        CheckStatus { phase: RwPhase::Start }
    }
}

impl Default for CheckStatus {
    fn default() -> (r: Self)
        ensures
            r == check_status_init(),
    {
        CheckStatus { phase: RwPhase::Start }
    }
}

impl Operation for CheckStatus {
    type Value = ();

    closed spec fn inv(self) -> bool {
        true
    }

    closed spec fn is_done(self) -> bool {
        self.phase is Finished
    }

    closed spec fn pending(self) -> Option<nat> {
        if self.phase is Requested {
            Some(2)
        } else {
            None
        }
    }

    closed spec fn fuel(self) -> nat {
        match self.phase {
            RwPhase::Start => 2,
            RwPhase::Requested => 1,
            RwPhase::Finished => 0,
        }
    }

    closed spec fn tick(self, input: Option<Vec<u8>>) -> Self {
        match self.phase {
            RwPhase::Start => CheckStatus { phase: RwPhase::Requested },
            RwPhase::Requested => CheckStatus { phase: RwPhase::Finished },
            RwPhase::Finished => self,
        }
    }

    closed spec fn emit(self, input: Option<Vec<u8>>) -> Emit<()> {
        match self.phase {
            RwPhase::Start => Emit::ReadData(2),
            RwPhase::Requested => match input {
                Some(v) => if v@[0] == 0 && v@[1] == 0 {
                    Emit::Finish(())
                } else {
                    Emit::Abort(BromError::UnexpectedStatus(be16(v@[0], v@[1])))
                },
                None => Emit::Abort(BromError::UnexpectedStatus(0)),
            },
            RwPhase::Finished => Emit::Abort(BromError::UnexpectedStatus(0)),
        }
    }

    fn step(&mut self, input: Option<Vec<u8>>) -> (s: Step<()>) {
        match self.phase {
            RwPhase::Start => {
                self.phase = RwPhase::Requested;
                Step::Io(Io::ReadData(2))
            }
            RwPhase::Requested => {
                self.phase = RwPhase::Finished;
                let v = input.unwrap();
                if v[0] == 0 && v[1] == 0 {
                    Step::Done(Result::Ok(()))
                } else {
                    let code: u16 = (v[0] as u16) * 0x100 + (v[1] as u16);
                    Step::Done(Result::Err(BromError::UnexpectedStatus(code)))
                }
            }
            RwPhase::Finished => {
                // Unreachable: `step` may not be called once the operation is done.
                Step::Done(Result::Err(BromError::UnexpectedStatus(0)))
            }
        }
    }
}

/// Command opcode: upload a download agent into device memory.
pub const CMD_SEND_DA: u8 = 0xd7;

/// Command opcode: execute a 32-bit download agent (not wired into any
/// composed operation).
pub const CMD_JUMP_DA: u8 = 0xd5;

/// Command opcode: execute a 64-bit download agent.
pub const CMD_JUMP_DA64: u8 = 0xde;

/// Command opcode: query the hardware code and version.
pub const CMD_GET_HW_CODE: u8 = 0xfd;

/// Command opcode: query the hardware and software versions (not wired into
/// any composed operation).
pub const CMD_GET_HW_SW_VER: u8 = 0xfc;

/// Hardware identity reported by the device.
#[derive(Debug, Clone, Copy, PartialEq, Eq, Structural)]
pub struct HwCode {
    /// Hardware code.
    pub code: u16,
    /// Hardware version.
    pub version: u16,
}

/// Four identity bytes decoded as two big-endian 16-bit halves.
pub open spec fn hwcode_of(s: Seq<u8>) -> HwCode {
    HwCode { code: be16(s[0], s[1]), version: be16(s[2], s[3]) }
}

/// A session with the boot ROM, created by a successful handshake; it holds
/// the memory address at which a download agent is loaded and executed.
#[derive(Debug, Clone, Copy, PartialEq, Eq, Structural)]
pub struct Brom {
    address: u32,
}

impl Brom {
    /// The load/execute address this session is bound to.
    pub closed spec fn load_address(self) -> u32 {
        self.address
    }
}

/// The synchronization handshake, completing with a session bound to the
/// given address.
pub struct HandshakeOp {
    inner: HandShake,
    address: u32,
}

/// The state of a fresh [`HandshakeOp`].
pub closed spec fn handshake_init(address: u32) -> HandshakeOp {
    HandshakeOp { inner: handshake_leaf_init(), address }
}

impl Operation for HandshakeOp {
    type Value = Brom;

    closed spec fn inv(self) -> bool {
        self.inner.inv()
    }

    closed spec fn is_done(self) -> bool {
        self.inner.is_done()
    }

    closed spec fn pending(self) -> Option<nat> {
        self.inner.pending()
    }

    closed spec fn fuel(self) -> nat {
        self.inner.fuel()
    }

    closed spec fn tick(self, input: Option<Vec<u8>>) -> Self {
        HandshakeOp { inner: self.inner.tick(input), address: self.address }
    }

    closed spec fn emit(self, input: Option<Vec<u8>>) -> Emit<Brom> {
        match self.inner.emit(input) {
            Emit::WriteData(w) => Emit::WriteData(w),
            Emit::ReadData(n) => Emit::ReadData(n),
            Emit::Abort(e) => Emit::Abort(e),
            Emit::Finish(_) => Emit::Finish(Brom { address: self.address }),
        }
    }

    fn step(&mut self, input: Option<Vec<u8>>) -> (s: Step<Brom>) {
        match self.inner.step(input) {
            Step::Io(io) => Step::Io(io),
            Step::Done(Result::Err(e)) => Step::Done(Result::Err(e)),
            Step::Done(Result::Ok(_)) => Step::Done(
                Result::Ok(Brom { address: self.address }),
            ),
        }
    }
}

/// The identity query: echo the command opcode, then read four bytes and
/// decode them as [`HwCode`].
pub struct HwcodeOp {
    inner: Chain<Echo, FixedRead>,
}

/// A fresh [`HwcodeOp`]: the opcode echo still owed, then a four-byte read.
pub closed spec fn hwcode_shape(r: HwcodeOp) -> bool {
    &&& r.inner.a_done == false
    &&& r.inner.a.phase is Start
    &&& r.inner.a.out@ == seq![CMD_GET_HW_CODE]
    &&& r.inner.b == fixed_read_init(4)
}

impl Operation for HwcodeOp {
    type Value = HwCode;

    closed spec fn inv(self) -> bool {
        self.inner.inv() && self.inner.b.n == 4
    }

    closed spec fn is_done(self) -> bool {
        self.inner.is_done()
    }

    closed spec fn pending(self) -> Option<nat> {
        self.inner.pending()
    }

    closed spec fn fuel(self) -> nat {
        self.inner.fuel()
    }

    closed spec fn tick(self, input: Option<Vec<u8>>) -> Self {
        HwcodeOp { inner: self.inner.tick(input) }
    }

    closed spec fn emit(self, input: Option<Vec<u8>>) -> Emit<HwCode> {
        match self.inner.emit(input) {
            Emit::WriteData(w) => Emit::WriteData(w),
            Emit::ReadData(n) => Emit::ReadData(n),
            Emit::Abort(e) => Emit::Abort(e),
            Emit::Finish(v) => Emit::Finish(hwcode_of(v@)),
        }
    }

    fn step(&mut self, input: Option<Vec<u8>>) -> (s: Step<HwCode>) {
        match self.inner.step(input) {
            Step::Io(io) => Step::Io(io),
            Step::Done(Result::Err(e)) => Step::Done(Result::Err(e)),
            Step::Done(Result::Ok(v)) => {
                assert(v@.len() == 4);
                let code: u16 = (v[0] as u16) * 0x100 + (v[1] as u16);
                let version: u16 = (v[2] as u16) * 0x100 + (v[3] as u16);
                Step::Done(Result::Ok(HwCode { code, version }))
            }
        }
    }
}

/// The payload upload: echoes of the opcode, address, length and empty
/// signature, a status check, the raw payload write, the device-reported
/// checksum read, and a final status check.
pub type SendDaOp = Chain<
    Chain<Chain<Chain<Chain<Chain<Chain<Echo, Echo>, Echo>, Echo>, CheckStatus>, WriteData>, FixedRead>,
    CheckStatus,
>;

/// A fresh [`SendDaOp`] for the given session address and payload.
pub closed spec fn send_da_shape(r: SendDaOp, address: u32, data: Vec<u8>) -> bool {
    &&& r.a_done == false
    &&& r.b == check_status_init()
    &&& r.a.a_done == false
    &&& r.a.b == fixed_read_init(2)
    &&& r.a.a.a_done == false
    &&& r.a.a.b == write_data_init(data)
    &&& r.a.a.a.a_done == false
    &&& r.a.a.a.b == check_status_init()
    &&& r.a.a.a.a.a_done == false
    &&& r.a.a.a.a.b.phase is Start
    &&& r.a.a.a.a.b.out@ == seq![0u8, 0u8, 0u8, 0u8]
    &&& r.a.a.a.a.a.a_done == false
    &&& r.a.a.a.a.a.b.phase is Start
    &&& r.a.a.a.a.a.b.out@ == be32_seq(data@.len() as u32)
    &&& r.a.a.a.a.a.a.a_done == false
    &&& r.a.a.a.a.a.a.b.phase is Start
    &&& r.a.a.a.a.a.a.b.out@ == be32_seq(address)
    &&& r.a.a.a.a.a.a.a.phase is Start
    &&& r.a.a.a.a.a.a.a.out@ == seq![CMD_SEND_DA]
}

/// The execution trigger for a 64-bit download agent: echoes of the opcode,
/// address and confirmation byte, a status check, the 64-bit mode selector
/// echo, and a final status check.
pub type JumpDa64Op = Chain<
    Chain<Chain<Chain<Chain<Echo, Echo>, Echo>, CheckStatus>, Echo>,
    CheckStatus,
>;

/// A fresh [`JumpDa64Op`] for the given session address.
pub closed spec fn jump_da64_shape(r: JumpDa64Op, address: u32) -> bool {
    &&& r.a_done == false
    &&& r.b == check_status_init()
    &&& r.a.a_done == false
    &&& r.a.b.phase is Start
    &&& r.a.b.out@ == seq![0x64u8]
    &&& r.a.a.a_done == false
    &&& r.a.a.b == check_status_init()
    &&& r.a.a.a.a_done == false
    &&& r.a.a.a.b.phase is Start
    &&& r.a.a.a.b.out@ == seq![0x01u8]
    &&& r.a.a.a.a.a_done == false
    &&& r.a.a.a.a.b.phase is Start
    &&& r.a.a.a.a.b.out@ == be32_seq(address)
    &&& r.a.a.a.a.a.phase is Start
    &&& r.a.a.a.a.a.out@ == seq![CMD_JUMP_DA64]
}

impl Brom {
    /// Start the synchronization handshake; on success the resulting session
    /// is bound to `address`, where later commands load and execute the
    /// download agent.
    pub fn handshake(address: u32) -> (r: HandshakeOp)
        ensures
            r == handshake_init(address),
            r.inv(),
            !r.is_done(),
            r.pending() is None,
    {
        HandshakeOp { inner: HandShake::new(), address }
    }

    /// Query the hardware code and version of the device.
    pub fn hwcode(&self) -> (r: HwcodeOp)
        ensures
            hwcode_shape(r),
            r.inv(),
            !r.is_done(),
            r.pending() is None,
    {
        HwcodeOp { inner: Chain::new(Echo::new(byte_vec(CMD_GET_HW_CODE)), FixedRead::new(4)) }
    }

    /// Upload a download agent into device memory at this session's address.
    pub fn send_da(&self, data: Vec<u8>) -> (r: SendDaOp)
        requires
            data@.len() <= 0xffff_ffff,
        ensures
            send_da_shape(r, self.load_address(), data),
            r.inv(),
            !r.is_done(),
            r.pending() is None,
    {
        let len: u32 = data.len() as u32;
        Chain::new(
            Chain::new(
                Chain::new(
                    Chain::new(
                        Chain::new(
                            Chain::new(
                                Chain::new(
                                    Echo::new(byte_vec(CMD_SEND_DA)),
                                    Echo::new(be32(self.address)),
                                ),
                                Echo::new(be32(len)),
                            ),
                            // Empty signature.
                            Echo::new(be32(0)),
                        ),
                        CheckStatus::new(),
                    ),
                    WriteData::new(data),
                ),
                // Device-reported checksum; consumed but not validated.
                FixedRead::new(2),
            ),
            CheckStatus::new(),
        )
    }

    /// Execute a 64-bit download agent previously uploaded to this session's
    /// address.
    pub fn jump_da64(&self) -> (r: JumpDa64Op)
        ensures
            jump_da64_shape(r, self.load_address()),
            r.inv(),
            !r.is_done(),
            r.pending() is None,
    {
        Chain::new(
            Chain::new(
                Chain::new(
                    Chain::new(
                        Chain::new(
                            Echo::new(byte_vec(CMD_JUMP_DA64)),
                            Echo::new(be32(self.address)),
                        ),
                        Echo::new(byte_vec(0x01)),
                    ),
                    CheckStatus::new(),
                ),
                Echo::new(byte_vec(0x64)),
            ),
            CheckStatus::new(),
        )
    }
}

/// The observable result of driving an operation against a script of read
/// results: the terminal outcome (`None` when the script or the step budget
/// runs out first) and every byte sequence the operation asked to write, in
/// order.
pub struct Run<V> {
    /// Terminal result, if one was reached.
    pub outcome: Option<Result<V, BromError>>,
    /// The write requests issued, in order.
    pub writes: Seq<Seq<u8>>,
    /// How many entries of the read script were consumed.
    pub used: nat,
}

/// Ghost driver: repeatedly steps an operation, answering each read request
/// with the next entry of `reads`, until the operation finishes or `gas`
/// steps have passed.  It performs exactly the loop a real transport driver
/// performs, at the specification level.
pub open spec fn drive<O: Operation>(
    o: O,
    input: Option<Vec<u8>>,
    reads: Seq<Vec<u8>>,
    gas: nat,
) -> Run<O::Value>
    decreases gas,
{
    if gas == 0 {
        Run { outcome: None, writes: Seq::empty(), used: 0 }
    } else {
        match o.emit(input) {
            Emit::Finish(v) => Run { outcome: Some(Result::Ok(v)), writes: Seq::empty(), used: 0 },
            Emit::Abort(e) => Run { outcome: Some(Result::Err(e)), writes: Seq::empty(), used: 0 },
            Emit::WriteData(w) => {
                let r = drive(o.tick(input), None, reads, (gas - 1) as nat);
                Run { outcome: r.outcome, writes: seq![w] + r.writes, used: r.used }
            }
            Emit::ReadData(n) => {
                if reads.len() > 0 && reads[0]@.len() == n {
                    let r = drive(o.tick(input), Some(reads[0]), reads.drop_first(), (gas - 1) as nat);
                    Run { outcome: r.outcome, writes: r.writes, used: r.used + 1 }
                } else {
                    Run { outcome: None, writes: Seq::empty(), used: 0 }
                }
            }
        }
    }
}

/// Law: a fixed-size read of `n` bytes completes with exactly the `n` bytes
/// fed to it, whatever they are, and never asks to write.
pub proof fn lemma_fixed_read_returns_exactly(n: usize, s: Vec<u8>, gas: nat)
    requires
        s@.len() == n,
        gas >= 2,
    ensures
        ({
            let r = drive(fixed_read_init(n), None, seq![s], gas);
            &&& r.outcome == Some(Result::<Vec<u8>, BromError>::Ok(s))
            &&& r.writes == Seq::<Seq<u8>>::empty()
            &&& r.used == 1
        }),
{
    let reads = seq![s];
    let o0 = fixed_read_init(n);
    let o1 = o0.tick(None);
    assert(reads[0] == s && reads.len() == 1);
    let r1 = drive(o1, Some(s), reads.drop_first(), (gas - 1) as nat);
    assert(drive(o0, None, reads, gas).outcome == r1.outcome);
    assert(drive(o0, None, reads, gas).writes == r1.writes);
    assert(drive(o0, None, reads, gas).used == r1.used + 1);
    assert(r1 == Run::<Vec<u8>> {
        outcome: Some(Result::Ok(s)),
        writes: Seq::empty(),
        used: 0,
    });
}

/// Law: an echo of `out` writes exactly `out`, reads the same number of
/// bytes back, and succeeds if and only if the reply is identical; any
/// difference yields `IncorrectEchoResponse`.
pub proof fn lemma_echo_roundtrip(out: Vec<u8>, reply: Vec<u8>, gas: nat)
    requires
        reply@.len() == out@.len(),
        gas >= 3,
    ensures
        ({
            let r = drive(echo_init(out), None, seq![reply], gas);
            &&& r.writes == seq![out@]
            &&& r.used == 1
            &&& (r.outcome == Some(Result::<(), BromError>::Ok(())) <==> reply@ == out@)
            &&& (reply@ != out@ ==> r.outcome == Some(
                Result::<(), BromError>::Err(BromError::IncorrectEchoResponse),
            ))
        }),
{
    let reads = seq![reply];
    let o0 = echo_init(out);
    let o1 = o0.tick(None);
    let o2 = o1.tick(None);
    assert(reads[0] == reply && reads.len() == 1);
    let r2 = drive(o2, Some(reply), reads.drop_first(), (gas - 2) as nat);
    assert(drive(o1, None, reads, (gas - 1) as nat).outcome == r2.outcome);
    assert(drive(o1, None, reads, (gas - 1) as nat).writes == r2.writes);
    assert(drive(o1, None, reads, (gas - 1) as nat).used == r2.used + 1);
    assert(r2.writes == Seq::<Seq<u8>>::empty() && r2.used == 0);
    assert(drive(o0, None, reads, gas).writes =~= seq![out@] + r2.writes);
    assert(seq![out@] + Seq::<Seq<u8>>::empty() =~= seq![out@]);
}

/// Law: a status check reads two bytes and never writes; it succeeds if and
/// only if both bytes are zero, and otherwise fails with the two bytes read
/// as a big-endian `UnexpectedStatus` code.
pub proof fn lemma_check_status_zero(reply: Vec<u8>, gas: nat)
    requires
        reply@.len() == 2,
        gas >= 2,
    ensures
        ({
            let r = drive(check_status_init(), None, seq![reply], gas);
            &&& r.writes == Seq::<Seq<u8>>::empty()
            &&& r.used == 1
            &&& (r.outcome == Some(Result::<(), BromError>::Ok(())) <==> (reply@[0] == 0
                && reply@[1] == 0))
            &&& (!(reply@[0] == 0 && reply@[1] == 0) ==> r.outcome == Some(
                Result::<(), BromError>::Err(
                    BromError::UnexpectedStatus(be16(reply@[0], reply@[1])),
                ),
            ))
        }),
{
    let reads = seq![reply];
    let o0 = check_status_init();
    let o1 = o0.tick(None);
    assert(reads[0] == reply && reads.len() == 1);
    let r1 = drive(o1, Some(reply), reads.drop_first(), (gas - 1) as nat);
    assert(drive(o0, None, reads, gas).outcome == r1.outcome);
    assert(drive(o0, None, reads, gas).writes == r1.writes);
    assert(drive(o0, None, reads, gas).used == r1.used + 1);
}

/// The first `m` single-byte writes of the synchronization handshake.
pub open spec fn handshake_writes_upto(m: int) -> Seq<Seq<u8>> {
    Seq::new(m as nat, |k: int| seq![handshake_byte(k)])
}

/// From the state that awaits the read request for byte `i`, with every
/// reply matching, the handshake succeeds and writes the remaining bytes.
proof fn handshake_rounds_ok(i: usize, reads: Seq<Vec<u8>>, gas: nat)
    requires
        i < 4,
        reads.len() == 4 - i,
        forall|k: int| 0 <= k < reads.len() ==> (#[trigger] reads[k])@.len() == 1,
        forall|k: int|
            0 <= k < reads.len() ==> (#[trigger] reads[k])@[0] == complement(
                handshake_byte(i + k),
            ),
        gas >= 2 * (4 - i),
    ensures
        ({
            let r = drive(HandShake { idx: i, phase: HsPhase::AwaitReq }, None, reads, gas);
            &&& r.outcome == Some(Result::<(), BromError>::Ok(()))
            &&& r.writes =~= Seq::new((3 - i) as nat, |k: int| seq![handshake_byte(i + 1 + k)])
            &&& r.used == reads.len()
        }),
    decreases 4 - i,
{
    let o0 = HandShake { idx: i, phase: HsPhase::AwaitReq };
    let o1 = o0.tick(None);
    let hd = reads[0];
    assert(hd@[0] == complement(handshake_byte(i as int)));
    assert(drive(o0, None, reads, gas).outcome == drive(o1, Some(hd), reads.drop_first(), (gas - 1) as nat).outcome);
    assert(drive(o0, None, reads, gas).writes == drive(o1, Some(hd), reads.drop_first(), (gas - 1) as nat).writes);
    assert(drive(o0, None, reads, gas).used == drive(o1, Some(hd), reads.drop_first(), (gas - 1) as nat).used + 1);
    if i == 3 {
        assert(drive(o1, Some(hd), reads.drop_first(), (gas - 1) as nat) == Run::<()> {
            outcome: Some(Result::Ok(())),
            writes: Seq::empty(),
            used: 0,
        });
        assert(Seq::<Seq<u8>>::empty() =~= Seq::new(0, |k: int| seq![handshake_byte(i + 1 + k)]));
    } else {
        let o2 = o1.tick(Some(hd));
        assert(o2 == HandShake { idx: (i + 1) as usize, phase: HsPhase::AwaitReq });
        let rest = reads.drop_first();
        assert(forall|k: int|
            0 <= k < rest.len() ==> (#[trigger] rest[k])@[0] == complement(
                handshake_byte(i + 1 + k),
            ));
        handshake_rounds_ok((i + 1) as usize, rest, (gas - 2) as nat);
        let inner = drive(o2, None, rest, (gas - 2) as nat);
        assert(drive(o1, Some(hd), reads.drop_first(), (gas - 1) as nat).writes =~= seq![
            seq![handshake_byte(i + 1)],
        ] + inner.writes);
        assert(seq![seq![handshake_byte(i + 1)]] + Seq::new((3 - i - 1) as nat, |k: int| seq![
            handshake_byte(i + 2 + k),
        ]) =~= Seq::new((3 - i) as nat, |k: int| seq![handshake_byte(i + 1 + k)]));
    }
}

/// From the state that awaits the read request for byte `i`, with the first
/// `j` replies matching and reply `j` wrong, the handshake fails with
/// `IncorrectHandshakeResponse` and writes only the bytes before the failure.
proof fn handshake_rounds_fail(i: usize, reads: Seq<Vec<u8>>, gas: nat, j: int)
    requires
        i < 4,
        reads.len() == 4 - i,
        forall|k: int| 0 <= k < reads.len() ==> (#[trigger] reads[k])@.len() == 1,
        0 <= j < reads.len(),
        forall|k: int|
            0 <= k < j ==> (#[trigger] reads[k])@[0] == complement(handshake_byte(i + k)),
        reads[j]@[0] != complement(handshake_byte(i + j)),
        gas >= 2 * (4 - i),
    ensures
        ({
            let r = drive(HandShake { idx: i, phase: HsPhase::AwaitReq }, None, reads, gas);
            &&& r.outcome == Some(
                Result::<(), BromError>::Err(BromError::IncorrectHandshakeResponse),
            )
            &&& r.writes =~= Seq::new(j as nat, |k: int| seq![handshake_byte(i + 1 + k)])
            &&& r.used == j + 1
        }),
    decreases 4 - i,
{
    let o0 = HandShake { idx: i, phase: HsPhase::AwaitReq };
    let o1 = o0.tick(None);
    let hd = reads[0];
    assert(drive(o0, None, reads, gas).outcome == drive(o1, Some(hd), reads.drop_first(), (gas - 1) as nat).outcome);
    assert(drive(o0, None, reads, gas).writes == drive(o1, Some(hd), reads.drop_first(), (gas - 1) as nat).writes);
    assert(drive(o0, None, reads, gas).used == drive(o1, Some(hd), reads.drop_first(), (gas - 1) as nat).used + 1);
    if j == 0 {
        assert(drive(o1, Some(hd), reads.drop_first(), (gas - 1) as nat) == Run::<()> {
            outcome: Some(Result::Err(BromError::IncorrectHandshakeResponse)),
            writes: Seq::empty(),
            used: 0,
        });
        assert(Seq::<Seq<u8>>::empty() =~= Seq::new(0, |k: int| seq![handshake_byte(i + 1 + k)]));
    } else {
        assert(hd@[0] == complement(handshake_byte(i as int)));
        let o2 = o1.tick(Some(hd));
        assert(o2 == HandShake { idx: (i + 1) as usize, phase: HsPhase::AwaitReq });
        let rest = reads.drop_first();
        assert(forall|k: int|
            0 <= k < j - 1 ==> (#[trigger] rest[k])@[0] == complement(handshake_byte(i + 1 + k)));
        assert(rest[j - 1]@[0] != complement(handshake_byte(i + j)));
        handshake_rounds_fail((i + 1) as usize, rest, (gas - 2) as nat, j - 1);
        let inner = drive(o2, None, rest, (gas - 2) as nat);
        assert(drive(o1, Some(hd), reads.drop_first(), (gas - 1) as nat).writes =~= seq![
            seq![handshake_byte(i + 1)],
        ] + inner.writes);
        assert(seq![seq![handshake_byte(i + 1)]] + Seq::new((j - 1) as nat, |k: int| seq![
            handshake_byte(i + 2 + k),
        ]) =~= Seq::new(j as nat, |k: int| seq![handshake_byte(i + 1 + k)]));
    }
}

/// Law: the synchronization handshake succeeds if and only if all four
/// single-byte replies are, in order, the bitwise complements of the four
/// fixed synchronization bytes; on success exactly those four bytes are
/// written.
pub proof fn lemma_handshake_sync(reads: Seq<Vec<u8>>, gas: nat)
    requires
        reads.len() == 4,
        forall|k: int| 0 <= k < 4 ==> (#[trigger] reads[k])@.len() == 1,
        gas >= 9,
    ensures
        ({
            let r = drive(handshake_leaf_init(), None, reads, gas);
            &&& (r.outcome == Some(Result::<(), BromError>::Ok(())) <==> (forall|k: int|
                0 <= k < 4 ==> (#[trigger] reads[k])@[0] == complement(handshake_byte(k))))
            &&& ((forall|k: int|
                0 <= k < 4 ==> (#[trigger] reads[k])@[0] == complement(handshake_byte(k)))
                ==> r.writes =~= handshake_writes_upto(4) && r.used == 4)
        }),
{
    let o0 = handshake_leaf_init();
    let o1 = o0.tick(None);
    assert(o1 == HandShake { idx: 0, phase: HsPhase::AwaitReq });
    let inner = drive(o1, None, reads, (gas - 1) as nat);
    assert(drive(o0, None, reads, gas).writes =~= seq![seq![handshake_byte(0)]] + inner.writes);
    assert(drive(o0, None, reads, gas).outcome == inner.outcome);
    assert(drive(o0, None, reads, gas).used == inner.used);
    if forall|k: int| 0 <= k < 4 ==> (#[trigger] reads[k])@[0] == complement(handshake_byte(k)) {
        handshake_rounds_ok(0, reads, (gas - 1) as nat);
        assert(seq![seq![handshake_byte(0)]] + Seq::new(3, |k: int| seq![handshake_byte(1 + k)])
            =~= handshake_writes_upto(4));
    } else {
        let j: int = if reads[0]@[0] != complement(handshake_byte(0)) {
            0
        } else if reads[1]@[0] != complement(handshake_byte(1)) {
            1
        } else if reads[2]@[0] != complement(handshake_byte(2)) {
            2
        } else {
            3
        };
        handshake_rounds_fail(0, reads, (gas - 1) as nat, j);
    }
}

/// Law: if synchronization reply `j` is the first wrong one, the handshake
/// fails with `IncorrectHandshakeResponse` and no further bytes are
/// exchanged: exactly the first `j + 1` bytes are written and exactly
/// `j + 1` replies are consumed.
pub proof fn lemma_handshake_stops_at_mismatch(reads: Seq<Vec<u8>>, gas: nat, j: int)
    requires
        reads.len() == 4,
        forall|k: int| 0 <= k < 4 ==> (#[trigger] reads[k])@.len() == 1,
        gas >= 9,
        0 <= j < 4,
        forall|k: int| 0 <= k < j ==> (#[trigger] reads[k])@[0] == complement(handshake_byte(k)),
        reads[j]@[0] != complement(handshake_byte(j)),
    ensures
        ({
            let r = drive(handshake_leaf_init(), None, reads, gas);
            &&& r.outcome == Some(
                Result::<(), BromError>::Err(BromError::IncorrectHandshakeResponse),
            )
            &&& r.writes =~= handshake_writes_upto(j + 1)
            &&& r.used == j + 1
        }),
{
    let o0 = handshake_leaf_init();
    let o1 = o0.tick(None);
    assert(o1 == HandShake { idx: 0, phase: HsPhase::AwaitReq });
    let inner = drive(o1, None, reads, (gas - 1) as nat);
    assert(drive(o0, None, reads, gas).writes =~= seq![seq![handshake_byte(0)]] + inner.writes);
    assert(drive(o0, None, reads, gas).used == inner.used);
    handshake_rounds_fail(0, reads, (gas - 1) as nat, j);
    assert(seq![seq![handshake_byte(0)]] + Seq::new(j as nat, |k: int| seq![handshake_byte(1 + k)])
        =~= handshake_writes_upto(j + 1));
}

/// The driver never consumes more read results than the script holds.
proof fn lemma_drive_used_bounded<O: Operation>(
    o: O,
    input: Option<Vec<u8>>,
    reads: Seq<Vec<u8>>,
    gas: nat,
)
    ensures
        drive(o, input, reads, gas).used <= reads.len(),
    decreases gas,
{
    if gas == 0 {
    } else {
        match o.emit(input) {
            Emit::Finish(_) => {}
            Emit::Abort(_) => {}
            Emit::WriteData(_) => {
                lemma_drive_used_bounded(o.tick(input), None, reads, (gas - 1) as nat);
            }
            Emit::ReadData(n) => {
                if reads.len() > 0 && reads[0]@.len() == n {
                    lemma_drive_used_bounded(
                        o.tick(input),
                        Some(reads[0]),
                        reads.drop_first(),
                        (gas - 1) as nat,
                    );
                }
            }
        }
    }
}

/// A chain whose first operation has already completed behaves exactly as
/// its second operation.
proof fn lemma_chain_tail<A: Operation, B: Operation>(
    a: A,
    b: B,
    input: Option<Vec<u8>>,
    reads: Seq<Vec<u8>>,
    gas: nat,
)
    ensures
        ({
            let rb = drive(b, input, reads, gas);
            let rc = drive(Chain { a, b, a_done: true }, input, reads, gas);
            &&& rc.outcome == rb.outcome
            &&& rc.writes == rb.writes
            &&& rc.used == rb.used
        }),
    decreases gas,
{
    let c = Chain { a, b, a_done: true };
    if gas == 0 {
    } else {
        match b.emit(input) {
            Emit::Finish(_) => {}
            Emit::Abort(_) => {}
            Emit::WriteData(_) => {
                assert(c.tick(input) == (Chain { a, b: b.tick(input), a_done: true }));
                lemma_chain_tail(a, b.tick(input), None, reads, (gas - 1) as nat);
            }
            Emit::ReadData(n) => {
                if reads.len() > 0 && reads[0]@.len() == n {
                    assert(c.tick(input) == (Chain { a, b: b.tick(input), a_done: true }));
                    lemma_chain_tail(
                        a,
                        b.tick(input),
                        Some(reads[0]),
                        reads.drop_first(),
                        (gas - 1) as nat,
                    );
                }
            }
        }
    }
}

/// Law: sequencing runs the two operations in order.  When the first
/// operation of a chain runs to success, the chain writes exactly what the
/// first wrote followed by what the second writes, consumes the first's
/// reads and then the second's, and finishes with the second's outcome on
/// the remaining read script.
pub proof fn lemma_chain_runs_in_sequence<A: Operation, B: Operation>(
    a: A,
    b: B,
    input: Option<Vec<u8>>,
    reads: Seq<Vec<u8>>,
    gas: nat,
)
    requires
        drive(a, input, reads, gas).outcome matches Some(Result::Ok(_)),
    ensures
        ({
            let ra = drive(a, input, reads, gas);
            let rb = drive(
                b,
                None,
                reads.skip(ra.used as int),
                (gas - ra.writes.len() - ra.used) as nat,
            );
            let rc = drive(chain_init(a, b), input, reads, gas);
            &&& ra.writes.len() + ra.used < gas
            &&& rc.outcome == rb.outcome
            &&& rc.writes == ra.writes + rb.writes
            &&& rc.used == ra.used + rb.used
        }),
    decreases gas,
{
    let c = chain_init(a, b);
    if gas == 0 {
        assert(false);
    } else {
        match a.emit(input) {
            Emit::Abort(_) => {
                assert(false);
            }
            Emit::Finish(_) => {
                let ra = drive(a, input, reads, gas);
                assert(ra.used == 0 && ra.writes == Seq::<Seq<u8>>::empty());
                assert(reads.skip(0) =~= reads);
                assert(c.tick(input) == (Chain {
                    a: a.tick(input),
                    b: b.tick(None),
                    a_done: true,
                }));
                match b.emit(None) {
                    Emit::Finish(_) => {}
                    Emit::Abort(_) => {}
                    Emit::WriteData(_) => {
                        lemma_chain_tail(a.tick(input), b.tick(None), None, reads, (gas - 1) as nat);
                    }
                    Emit::ReadData(n) => {
                        if reads.len() > 0 && reads[0]@.len() == n {
                            lemma_chain_tail(
                                a.tick(input),
                                b.tick(None),
                                Some(reads[0]),
                                reads.drop_first(),
                                (gas - 1) as nat,
                            );
                        }
                    }
                }
                let rb = drive(b, None, reads, gas);
                assert(Seq::<Seq<u8>>::empty() + rb.writes =~= rb.writes);
            }
            Emit::WriteData(w) => {
                let a2 = a.tick(input);
                assert(c.tick(input) == chain_init(a2, b));
                lemma_chain_runs_in_sequence(a2, b, None, reads, (gas - 1) as nat);
                let inner = drive(a2, None, reads, (gas - 1) as nat);
                let rb = drive(
                    b,
                    None,
                    reads.skip(inner.used as int),
                    ((gas - 1) - inner.writes.len() - inner.used) as nat,
                );
                assert((seq![w] + inner.writes) + rb.writes =~= seq![w] + (inner.writes
                    + rb.writes));
            }
            Emit::ReadData(n) => {
                if reads.len() > 0 && reads[0]@.len() == n {
                    let a2 = a.tick(input);
                    assert(c.tick(input) == chain_init(a2, b));
                    let rest = reads.drop_first();
                    lemma_chain_runs_in_sequence(a2, b, Some(reads[0]), rest, (gas - 1) as nat);
                    let inner = drive(a2, Some(reads[0]), rest, (gas - 1) as nat);
                    lemma_drive_used_bounded(a2, Some(reads[0]), rest, (gas - 1) as nat);
                    assert(rest.skip(inner.used as int) =~= reads.skip(inner.used as int + 1));
                } else {
                    assert(false);
                }
            }
        }
    }
}

/// Law: sequencing short-circuits.  If the first operation of a chain runs
/// to an error, the chain produces the same error and the same writes: no IO
/// request of the second operation is ever issued.
pub proof fn lemma_chain_short_circuit<A: Operation, B: Operation>(
    a: A,
    b: B,
    input: Option<Vec<u8>>,
    reads: Seq<Vec<u8>>,
    gas: nat,
)
    requires
        drive(a, input, reads, gas).outcome matches Some(r) && r is Err,
    ensures
        ({
            let ra = drive(a, input, reads, gas);
            let rc = drive(chain_init(a, b), input, reads, gas);
            &&& ra.outcome matches Some(Result::Err(e)) && rc.outcome == Some(
                Result::<B::Value, BromError>::Err(e),
            )
            &&& rc.writes == ra.writes
        }),
    decreases gas,
{
    let c = chain_init(a, b);
    if gas == 0 {
        assert(false);
    } else {
        match a.emit(input) {
            Emit::Finish(_) => {
                assert(false);
            }
            Emit::Abort(_) => {}
            Emit::WriteData(w) => {
                assert(c.tick(input) == chain_init(a.tick(input), b));
                lemma_chain_short_circuit(a.tick(input), b, None, reads, (gas - 1) as nat);
            }
            Emit::ReadData(n) => {
                if reads.len() > 0 && reads[0]@.len() == n {
                    assert(c.tick(input) == chain_init(a.tick(input), b));
                    lemma_chain_short_circuit(
                        a.tick(input),
                        b,
                        Some(reads[0]),
                        reads.drop_first(),
                        (gas - 1) as nat,
                    );
                } else {
                    assert(false);
                }
            }
        }
    }
}



} // verus!
