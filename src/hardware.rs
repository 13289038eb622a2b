//! Hardware access: SPI byte transfers and the three GPIO lines
//! (data/command select, reset, busy), behind traits that each platform
//! implements, with a ghost log of every operation issued and its outcome.
use vstd::prelude::*;

use crate::error::DisplayError;

verus! {

/// Largest payload issued as one SPI transfer.
pub const MAX_CHUNK_SIZE: usize = 4096;

/// Pause after each chunk of a split transfer, in microseconds.
pub const CHUNK_PAUSE_US: u64 = 100;

/// One hardware operation, with what the hardware answered.
pub ghost enum Op {
    /// The data/command line was driven (low = command, high = data).
    Dc(bool, Result<(), DisplayError>),
    /// The reset line was driven.
    Rst(bool, Result<(), DisplayError>),
    /// One SPI transfer of these bytes.
    Bytes(Seq<u8>, Result<(), DisplayError>),
    /// One read of the busy line.
    Busy(Result<bool, DisplayError>),
    /// A pause of this many microseconds.
    Wait(nat),
}

/// The hardware accepted this operation: a write succeeded, or a busy read
/// saw the line idle.
pub open spec fn accepted(op: Op) -> bool {
    match op {
        Op::Dc(_, o) => o is Ok,
        Op::Rst(_, o) => o is Ok,
        Op::Bytes(_, o) => o is Ok,
        Op::Busy(o) => o == Ok::<bool, DisplayError>(false),
        Op::Wait(_) => true,
    }
}

/// Every operation of a log was accepted.
pub open spec fn all_accepted(ops: Seq<Op>) -> bool {
    forall|i: int| 0 <= i < ops.len() ==> accepted(#[trigger] ops[i])
}

/// Reads the transfers of a payload larger than one chunk from the front of
/// `ops`: each full chunk (then the rest) as one transfer followed by a
/// pause of `CHUNK_PAUSE_US`, up to the first failed transfer. Gives the
/// number of operations read and the outcome; `None` where `ops` does not
/// start that way.
pub open spec fn chunks_parse(data: Seq<u8>, ops: Seq<Op>) -> Option<(nat, Result<(), DisplayError>)>
    decreases data.len(),
{
    if data.len() == 0 {
        Some((0, Ok(())))
    } else {
        let n = if data.len() <= MAX_CHUNK_SIZE {
            data.len() as int
        } else {
            MAX_CHUNK_SIZE as int
        };
        if ops.len() >= 1 && ops[0] is Bytes && ops[0]->Bytes_0 == data.take(n) {
            let o = ops[0]->Bytes_1;
            if o is Err {
                Some((1, o))
            } else if ops.len() >= 2 && ops[1] == Op::Wait(CHUNK_PAUSE_US as nat) {
                match chunks_parse(data.skip(n), ops.skip(2)) {
                    Some(t) => Some(((t.0 + 2) as nat, t.1)),
                    None => None,
                }
            } else {
                None
            }
        } else {
            None
        }
    }
}

/// A reading result moved `k` operations further on.
pub open spec fn shifted(o: Option<(nat, Result<(), DisplayError>)>, k: nat) -> Option<(nat, Result<(), DisplayError>)> {
    match o {
        Some(t) => Some(((t.0 + k) as nat, t.1)),
        None => None,
    }
}

/// Reads the SPI transfers of a payload from the front of `ops`: a payload of
/// at most one chunk is one transfer, with its outcome; a larger one goes
/// out as chunks.
pub open spec fn send_parse(data: Seq<u8>, ops: Seq<Op>) -> Option<(nat, Result<(), DisplayError>)> {
    if data.len() <= MAX_CHUNK_SIZE {
        if ops.len() >= 1 && ops[0] is Bytes && ops[0]->Bytes_0 == data {
            Some((1, ops[0]->Bytes_1))
        } else {
            None
        }
    } else {
        chunks_parse(data, ops)
    }
}

/// The bytes that a list of operations carries over SPI, concatenated.
pub open spec fn payload(ops: Seq<Op>) -> Seq<u8>
    decreases ops.len(),
{
    if ops.len() == 0 {
        Seq::empty()
    } else {
        carried(ops[0]) + payload(ops.skip(1))
    }
}

/// The bytes that one operation carries over SPI.
pub open spec fn carried(op: Op) -> Seq<u8> {
    match op {
        Op::Bytes(b, _) => b,
        _ => Seq::empty(),
    }
}

/// Every SPI transfer of a list carries at least one and at most
/// `MAX_CHUNK_SIZE` bytes.
pub open spec fn small_transfers(ops: Seq<Op>) -> bool {
    forall|i: int|
        0 <= i < ops.len() && ops[i] is Bytes ==> 0 < (#[trigger] ops[i])->Bytes_0.len()
            <= MAX_CHUNK_SIZE
}

/// The pauses of a list of operations, in microseconds, added up.
pub open spec fn waited(ops: Seq<Op>) -> nat
    decreases ops.len(),
{
    if ops.len() == 0 {
        0
    } else {
        (match ops[0] {
            Op::Wait(us) => us,
            _ => 0,
        }) + waited(ops.skip(1))
    }
}

proof fn lemma_chunks(data: Seq<u8>, ops: Seq<Op>)
    requires
        chunks_parse(data, ops) matches Some(t) && t.0 == ops.len() && t.1 is Ok,
    ensures
        payload(ops) == data,
        small_transfers(ops),
        waited(ops) == (ops.len() / 2) * (CHUNK_PAUSE_US as nat),
        ops.len() % 2 == 0,
        ops.len() / 2 == (data.len() + MAX_CHUNK_SIZE - 1) / (MAX_CHUNK_SIZE as int),
    decreases data.len(),
{
    if data.len() == 0 {
        assert(payload(ops) =~= data);
    } else {
        let n = if data.len() <= MAX_CHUNK_SIZE {
            data.len() as int
        } else {
            MAX_CHUNK_SIZE as int
        };
        let rest = ops.skip(2);
        lemma_chunks(data.skip(n), rest);
        assert(ops.skip(1).skip(1) =~= rest);
        assert(payload(ops.skip(1)) == carried(ops[1]) + payload(rest));
        assert(payload(ops) =~= data.take(n) + data.skip(n));
        assert(data.take(n) + data.skip(n) =~= data);
        assert(waited(ops.skip(1)) == CHUNK_PAUSE_US as nat + waited(rest));
        assert forall|i: int| 0 <= i < ops.len() && ops[i] is Bytes implies 0 < (
        #[trigger] ops[i])->Bytes_0.len() <= MAX_CHUNK_SIZE by {
            if i >= 2 {
                assert(ops[i] == rest[i - 2]);
            }
        }
    }
}

/// A payload written over SPI reaches the bus whole and in order: when the
/// write succeeded, the bytes of its transfers, concatenated, are the
/// payload. A payload larger than one chunk goes out as one non-empty
/// transfer of at most `MAX_CHUNK_SIZE` bytes per started chunk, each
/// followed by a pause of `CHUNK_PAUSE_US`; a smaller one as a single
/// transfer whose outcome is the result.
pub proof fn chunks_reassemble(data: Seq<u8>, ops: Seq<Op>, r: Result<(), DisplayError>)
    requires
        send_parse(data, ops) == Some((ops.len(), r)),
    ensures
        r is Ok ==> payload(ops) == data,
        data.len() <= MAX_CHUNK_SIZE ==> ops == seq![Op::Bytes(data, r)],
        data.len() > MAX_CHUNK_SIZE && r is Ok ==> {
            &&& small_transfers(ops)
            &&& ops.len() == 2 * ((data.len() + MAX_CHUNK_SIZE - 1) / (MAX_CHUNK_SIZE as int))
            &&& waited(ops) == (ops.len() / 2) * (CHUNK_PAUSE_US as nat)
        },
{
    if data.len() <= MAX_CHUNK_SIZE {
        assert(ops =~= seq![Op::Bytes(data, r)]);
        if r is Ok {
            assert(ops.skip(1) =~= Seq::<Op>::empty());
            assert(payload(ops.skip(1)) == Seq::<u8>::empty());
            assert(payload(ops) =~= data);
        }
    } else if r is Ok {
        lemma_chunks(data, ops);
    }
}

/// A payload written to hardware that accepts every transfer is written
/// successfully.
pub proof fn accepted_send_succeeds(data: Seq<u8>, ops: Seq<Op>, r: Result<(), DisplayError>)
    requires
        send_parse(data, ops) matches Some(t) && t.0 <= ops.len() && t.1 == r,
        all_accepted(ops),
    ensures
        r is Ok,
{
    if data.len() <= MAX_CHUNK_SIZE {
        assert(accepted(ops[0]));
    } else {
        lemma_accepted_chunks(data, ops, r);
    }
}

proof fn lemma_accepted_chunks(data: Seq<u8>, ops: Seq<Op>, r: Result<(), DisplayError>)
    requires
        chunks_parse(data, ops) matches Some(t) && t.0 <= ops.len() && t.1 == r,
        all_accepted(ops),
    ensures
        r is Ok,
    decreases data.len(),
{
    if data.len() > 0 {
        assert(accepted(ops[0]));
        let n = if data.len() <= MAX_CHUNK_SIZE {
            data.len() as int
        } else {
            MAX_CHUNK_SIZE as int
        };
        let rest = ops.skip(2);
        assert forall|i: int| 0 <= i < rest.len() implies accepted(#[trigger] rest[i]) by {
            assert(rest[i] == ops[i + 2]);
        }
        lemma_accepted_chunks(data.skip(n), rest, r);
    }
}

proof fn lemma_chunks_extend(data: Seq<u8>, ops: Seq<Op>, more: Seq<Op>)
    requires
        chunks_parse(data, ops) is Some,
        (chunks_parse(data, ops)->0).0 <= ops.len(),
    ensures
        chunks_parse(data, ops + more) == chunks_parse(data, ops),
    decreases data.len(),
{
    if data.len() > 0 {
        let n = if data.len() <= MAX_CHUNK_SIZE {
            data.len() as int
        } else {
            MAX_CHUNK_SIZE as int
        };
        assert((ops + more)[0] == ops[0]);
        if ops[0]->Bytes_1 is Ok {
            assert((ops + more)[1] == ops[1]);
            assert((ops + more).skip(2) =~= ops.skip(2) + more);
            lemma_chunks_extend(data.skip(n), ops.skip(2), more);
        }
    }
}

/// Reading a payload's transfers looks only at the operations it reads.
pub proof fn lemma_send_extend(data: Seq<u8>, ops: Seq<Op>, more: Seq<Op>)
    requires
        send_parse(data, ops) is Some,
        (send_parse(data, ops)->0).0 <= ops.len(),
    ensures
        send_parse(data, ops + more) == send_parse(data, ops),
{
    if data.len() <= MAX_CHUNK_SIZE {
        assert((ops + more)[0] == ops[0]);
    } else {
        lemma_chunks_extend(data, ops, more);
    }
}

/// GPIO lines of one platform.
pub trait GpioController {
    /// Request the data/command (output, low), reset (output, high) and busy
    /// (input) lines.
    fn new() -> Result<Self, DisplayError> where Self: Sized;

    /// Set the Data/Command pin state.
    fn write_dc(&self, value: bool) -> Result<(), DisplayError>;

    /// Set the Reset pin state.
    fn write_rst(&self, value: bool) -> Result<(), DisplayError>;

    /// Read the Busy pin state.
    fn read_busy(&self) -> Result<bool, DisplayError>;
}

/// SPI device of one platform.
pub trait SpiController {
    /// Open and configure the device (mode 0, 8 bits per word).
    fn new() -> Result<Self, DisplayError> where Self: Sized;

    /// Issue one transfer of these bytes.
    fn write_all(&mut self, data: &[u8]) -> Result<(), DisplayError>;
}

/// Blocking pauses.
pub trait DelayController {
    /// A pause provider.
    fn new() -> Self where Self: Sized;

    /// Block for this many milliseconds.
    fn delay_ms(&mut self, ms: u64);

    /// Block for this many microseconds.
    fn delay_us(&mut self, us: u64);
}

/// One SPI device and three GPIO lines, exclusively owned.
pub struct HardwareInterface<G, S, D> {
    gpio: G,
    spi: S,
    delay: D,
    log: Ghost<Seq<Op>>,
}

impl<G: GpioController, S: SpiController, D: DelayController> HardwareInterface<G, S, D> {
    /// Every operation issued so far, with its outcome, in order.
    pub closed spec fn trace(&self) -> Seq<Op> {
        self.log@
    }

    /// The GPIO controller.
    pub closed spec fn gpio(&self) -> G {
        self.gpio
    }

    /// The SPI controller.
    pub closed spec fn spi(&self) -> S {
        self.spi
    }

    /// The GPIO controller.
    pub fn gpio_controller(&self) -> (r: &G)
        ensures
            *r == self.gpio(),
    {
        &self.gpio
    }

    /// The SPI controller.
    pub fn spi_controller(&self) -> (r: &S)
        ensures
            *r == self.spi(),
    {
        &self.spi
    }

    /// The pause provider.
    pub fn delay_controller(&self) -> (r: &D) {
        &self.delay
    }

    /// The pause provider.
    pub closed spec fn delay(&self) -> D {
        self.delay
    }

    /// Open the GPIO lines, then the SPI device.
    pub fn new() -> (r: Result<Self, DisplayError>)
        ensures
            r matches Ok(h) ==> h.trace() == Seq::<Op>::empty(),
    {
        let gpio = G::new()?;
        let spi = S::new()?;
        let delay = D::new();
        Ok(HardwareInterface { gpio, spi, delay, log: Ghost(Seq::empty()) })
    }

    /// Set the Data/Command pin state.
    pub fn write_dc(&mut self, value: bool) -> (r: Result<(), DisplayError>)
        ensures
            final(self).trace() == old(self).trace().push(Op::Dc(value, r)),
    {
        let r = self.gpio.write_dc(value);
        self.log = Ghost(self.log@.push(Op::Dc(value, r)));
        r
    }

    /// Set the Reset pin state.
    pub fn write_rst(&mut self, value: bool) -> (r: Result<(), DisplayError>)
        ensures
            final(self).trace() == old(self).trace().push(Op::Rst(value, r)),
    {
        let r = self.gpio.write_rst(value);
        self.log = Ghost(self.log@.push(Op::Rst(value, r)));
        r
    }

    /// Read the Busy pin state.
    pub fn read_busy(&mut self) -> (r: Result<bool, DisplayError>)
        ensures
            final(self).trace() == old(self).trace().push(Op::Busy(r)),
    {
        let r = self.gpio.read_busy();
        self.log = Ghost(self.log@.push(Op::Busy(r)));
        r
    }

    /// Block for `ms` milliseconds.
    pub fn delay_ms(&mut self, ms: u64)
        ensures
            final(self).trace() == old(self).trace().push(Op::Wait((ms as nat) * 1000)),
    {
        self.delay.delay_ms(ms);
        self.log = Ghost(self.log@.push(Op::Wait((ms as nat) * 1000)));
    }

    /// Block for `us` microseconds.
    pub fn delay_us(&mut self, us: u64)
        ensures
            final(self).trace() == old(self).trace().push(Op::Wait(us as nat)),
    {
        self.delay.delay_us(us);
        self.log = Ghost(self.log@.push(Op::Wait(us as nat)));
    }

    fn transfer(&mut self, data: &[u8]) -> (r: Result<(), DisplayError>)
        ensures
            final(self).trace() == old(self).trace().push(Op::Bytes(data@, r)),
    {
        let r = self.spi.write_all(data);
        self.log = Ghost(self.log@.push(Op::Bytes(data@, r)));
        r
    }

    /// Write a payload over SPI. A payload of at most one chunk goes out as
    /// one transfer; a larger one as consecutive chunks of at most
    /// `MAX_CHUNK_SIZE` bytes, each followed by a pause of `CHUNK_PAUSE_US`.
    /// Stops at the first failed transfer and returns its error.
    pub fn spi_write_all(&mut self, data: &[u8]) -> (r: Result<(), DisplayError>)
        ensures
            old(self).trace().is_prefix_of(final(self).trace()),
            send_parse(data@, final(self).trace().skip(old(self).trace().len() as int)) == Some(
                (
                    (final(self).trace().len() - old(self).trace().len()) as nat,
                    r,
                ),
            ),
    {
        let ghost l0 = self.trace();
        if data.len() <= MAX_CHUNK_SIZE {
            let r = self.transfer(data);
            proof {
                let d = self.trace().skip(l0.len() as int);
                assert(d =~= seq![Op::Bytes(data@, r)]);
                assert(l0 =~= self.trace().subrange(0, l0.len() as int));
            }
            return r;
        }
        let len = data.len();
        let mut start: usize = 0;
        proof {
            assert(data@.skip(0) =~= data@);
            assert(l0 =~= self.trace().subrange(0, l0.len() as int));
            assert forall|tail: Seq<Op>|
                chunks_parse(data@, self.trace().skip(l0.len() as int) + tail) == shifted(
                    #[trigger] chunks_parse(data@.skip(0), tail),
                    0,
                ) by {
                assert(self.trace().skip(l0.len() as int) + tail =~= tail);
                if let Some(t) = chunks_parse(data@, tail) {
                    assert((t.0 + 0) as nat == t.0);
                }
            }
        }
        while start < len
            invariant
                len == data@.len(),
                l0 == old(self).trace(),
                MAX_CHUNK_SIZE < len,
                start <= len,
                l0.is_prefix_of(self.trace()),
                forall|tail: Seq<Op>|
                    chunks_parse(data@, self.trace().skip(l0.len() as int) + tail) == shifted(
                        #[trigger] chunks_parse(data@.skip(start as int), tail),
                        (self.trace().len() - l0.len()) as nat,
                    ),
            decreases len - start,
        {
            let end = if len - start > MAX_CHUNK_SIZE {
                start + MAX_CHUNK_SIZE
            } else {
                len
            };
            let chunk = vstd::slice::slice_subrange(data, start, end);
            let ghost before = self.trace();
            let ghost rest = data@.skip(start as int);
            proof {
                let n = if rest.len() <= MAX_CHUNK_SIZE {
                    rest.len() as int
                } else {
                    MAX_CHUNK_SIZE as int
                };
                assert(chunk@ =~= rest.take(n));
                assert(data@.skip(end as int) =~= rest.skip(n));
            }
            let r = self.transfer(chunk);
            match r {
                Err(e) => {
                    proof {
                        let seg = seq![Op::Bytes(chunk@, r)];
                        let n = if rest.len() <= MAX_CHUNK_SIZE {
                            rest.len() as int
                        } else {
                            MAX_CHUNK_SIZE as int
                        };
                        assert(chunk@ == rest.take(n));
                        assert(seg[0] == Op::Bytes(rest.take(n), r));
                        assert(chunks_parse(rest, seg) == Some((1nat, r)));
                        assert(chunks_parse(data@, before.skip(l0.len() as int) + seg) == shifted(
                            chunks_parse(rest, seg),
                            (before.len() - l0.len()) as nat,
                        ));
                        assert(self.trace().skip(l0.len() as int) =~= before.skip(l0.len() as int)
                            + seg);
                        assert(l0 =~= self.trace().subrange(0, l0.len() as int));
                    }
                    return Err(e);
                },
                Ok(()) => {},
            }
            self.delay_us(CHUNK_PAUSE_US);
            proof {
                let seg = seq![Op::Bytes(chunk@, r), Op::Wait(CHUNK_PAUSE_US as nat)];
                assert(self.trace().skip(l0.len() as int) =~= before.skip(l0.len() as int) + seg);
                assert(l0 =~= self.trace().subrange(0, l0.len() as int));
                let n = if rest.len() <= MAX_CHUNK_SIZE {
                    rest.len() as int
                } else {
                    MAX_CHUNK_SIZE as int
                };
                assert(chunk@ == rest.take(n));
                assert(rest.skip(n) == data@.skip(end as int));
                assert(rest.len() > 0);
                assert forall|tail: Seq<Op>|
                    chunks_parse(data@, self.trace().skip(l0.len() as int) + tail) == shifted(
                        #[trigger] chunks_parse(data@.skip(end as int), tail),
                        (self.trace().len() - l0.len()) as nat,
                    ) by {
                    let full = seg + tail;
                    assert(full.skip(2) =~= tail);
                    assert(full[0] == Op::Bytes(rest.take(n), r));
                    assert(full[1] == Op::Wait(CHUNK_PAUSE_US as nat));
                    assert(chunks_parse(rest, full) == shifted(chunks_parse(rest.skip(n), full.skip(2)), 2));
                    assert(chunks_parse(data@, before.skip(l0.len() as int) + full) == shifted(
                        chunks_parse(rest, full),
                        (before.len() - l0.len()) as nat,
                    ));
                    assert(before.skip(l0.len() as int) + full =~= self.trace().skip(
                        l0.len() as int,
                    ) + tail);
                }
            }
            start = end;
        }
        proof {
            let empty = Seq::<Op>::empty();
            assert(data@.skip(len as int) =~= Seq::<u8>::empty());
            assert(chunks_parse(data@.skip(start as int), empty) == Some((0nat, Ok::<(), DisplayError>(()))));
            assert(chunks_parse(data@, self.trace().skip(l0.len() as int) + empty) == shifted(
                chunks_parse(data@.skip(start as int), empty),
                (self.trace().len() - l0.len()) as nat,
            ));
            assert(self.trace().skip(l0.len() as int) + empty =~= self.trace().skip(l0.len() as int));
        }
        Ok(())
    }
}

} // verus!
