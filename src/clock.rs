use vstd::prelude::*;

verus! {

/// A logical clock reading, in milliseconds.
#[derive(Clone, Copy, Debug, PartialEq, Eq, Structural)]
pub struct Timestamp {
    pub value: u64,
}

/// An amount of elapsed time, in milliseconds.
#[derive(Clone, Copy, Debug, PartialEq, Eq, Structural)]
pub struct Duration {
    pub millis: u64,
}

/// Reasons a clock could not be read.
#[derive(Clone, Copy, Debug, PartialEq, Eq, Structural)]
pub enum ClockError {
    /// The system clock reports a time before the Unix epoch.
    BeforeEpoch,
}

/// The millisecond count of a timestamp taken from a reading of the system clock:
/// the reading truncated to its low 64 bits.
pub open spec fn truncate_millis(m: u128) -> u64 {
    (m % 0x1_0000_0000_0000_0000u128) as u64
}

/// Relies on `std::time::SystemTime::now` and `SystemTime::duration_since(UNIX_EPOCH)`:
/// `None` exactly when the clock reads earlier than the epoch, else the whole
/// milliseconds elapsed since it (`Duration::as_millis`).
#[verifier::external_body]
fn system_millis_since_epoch() -> (r: Option<u128>) {
    match std::time::SystemTime::now().duration_since(std::time::UNIX_EPOCH) {
        Ok(d) => Some(d.as_millis()),
        Err(_) => None,
    }
}

/// A timestamp that is the given millisecond reading truncated to 64 bits.
pub fn timestamp_from_millis(m: u128) -> (r: Timestamp)
    ensures
        r.value == truncate_millis(m),
{
    Timestamp { value: (m % 0x1_0000_0000_0000_0000u128) as u64 }
}

/// A clock that is fully controlled by its owner.
#[derive(Clone, Copy, Debug)]
pub struct FakeClock {
    now: Timestamp,
}

impl FakeClock {
    pub closed spec fn reading(&self) -> Timestamp {
        self.now
    }

    pub fn new(now: Timestamp) -> (r: FakeClock)
        ensures
            r.reading() == now,
    {
        FakeClock { now }
    }

    pub fn now(&self) -> (r: Timestamp)
        ensures
            r == self.reading(),
    {
        self.now
    }

    pub fn set(&mut self, timestamp: Timestamp)
        ensures
            final(self).reading() == timestamp,
    {
        self.now = timestamp;
    }
}

/// A clock that advances by a fixed increment on every read.
#[derive(Clone, Copy, Debug)]
pub struct IncFakeClock {
    now: Timestamp,
    increment: Duration,
}

impl IncFakeClock {
    pub closed spec fn reading(&self) -> Timestamp {
        self.now
    }

    pub closed spec fn step(&self) -> Duration {
        self.increment
    }

    pub fn new(now: Timestamp, increment: Duration) -> (r: IncFakeClock)
        ensures
            r.reading() == now,
            r.step() == increment,
    {
        IncFakeClock { now, increment }
    }

    /// Advances the clock by its increment and returns the new reading.
    pub fn now(&mut self) -> (r: Timestamp)
        requires
            old(self).reading().value + old(self).step().millis <= u64::MAX,
        ensures
            r.value == old(self).reading().value + old(self).step().millis,
            final(self).reading() == r,
            final(self).step() == old(self).step(),
    {
        self.now = Timestamp { value: self.now.value + self.increment.millis };
        self.now
    }
}

/// A clock that reads the system time.
#[derive(Clone, Copy, Debug)]
pub struct SystemClock;

impl SystemClock {
    pub fn new() -> (r: SystemClock) {
        SystemClock
    }

    /// The timestamp for a reading of the system clock: the milliseconds
    /// since the Unix epoch, or `None` where the clock read earlier than it.
    pub fn from_reading(reading: Option<u128>) -> (r: Result<Timestamp, ClockError>)
        ensures
            match reading {
                Some(m) => r == Ok::<Timestamp, ClockError>(Timestamp { value: truncate_millis(m) }),
                None => r == Err::<Timestamp, ClockError>(ClockError::BeforeEpoch),
            },
    {
        match reading {
            Some(m) => Ok(timestamp_from_millis(m)),
            None => Err(ClockError::BeforeEpoch),
        }
    }

    /// The milliseconds since the Unix epoch, or an error where the system
    /// clock reads earlier than the epoch.
    pub fn now(&self) -> (r: Result<Timestamp, ClockError>)
        ensures
            r is Err ==> r == Err::<Timestamp, ClockError>(ClockError::BeforeEpoch),
    {
        SystemClock::from_reading(system_millis_since_epoch())
    }
}

impl Default for SystemClock {
    fn default() -> (r: SystemClock) {
        SystemClock::new()
    }
}

/// A clock of any of the kinds above, chosen once by its owner.
#[derive(Clone, Copy, Debug)]
pub enum SizedClock {
    System(SystemClock),
    Fake(FakeClock),
    Inc(IncFakeClock),
}

impl SizedClock {
    /// A clock can be read without overflowing its counter.
    pub open spec fn can_read(&self) -> bool {
        match self {
            SizedClock::Inc(c) => c.reading().value + c.step().millis <= u64::MAX,
            _ => true,
        }
    }

    /// Whether the clock can be read without overflowing its counter.
    pub fn readable(&self) -> (r: bool)
        ensures
            r == self.can_read(),
    {
        match self {
            SizedClock::Inc(c) => c.now.value <= u64::MAX - c.increment.millis,
            _ => true,
        }
    }

    pub fn now(&mut self) -> (r: Result<Timestamp, ClockError>)
        requires
            old(self).can_read(),
        ensures
            match (*old(self), *final(self)) {
                (SizedClock::System(a), SizedClock::System(b)) => b == a && (r is Err ==> r
                    == Err::<Timestamp, ClockError>(ClockError::BeforeEpoch)),
                (SizedClock::Fake(a), SizedClock::Fake(b)) => b == a && r == Ok::<
                    Timestamp,
                    ClockError,
                >(a.reading()),
                (SizedClock::Inc(a), SizedClock::Inc(b)) => {
                    &&& r is Ok
                    &&& r->Ok_0.value == a.reading().value + a.step().millis
                    &&& b.reading() == r->Ok_0
                    &&& b.step() == a.step()
                },
                _ => false,
            },
    {
        match self {
            SizedClock::System(c) => c.now(),
            SizedClock::Fake(c) => Ok(c.now()),
            SizedClock::Inc(c) => Ok(c.now()),
        }
    }
}

/// Successive reads of an incrementing clock give values that differ by
/// exactly its increment, and that strictly increase when the increment is positive.
pub proof fn lemma_inc_clock_successive(c0: IncFakeClock, c1: IncFakeClock, t1: Timestamp, t2: Timestamp)
    requires
        t1.value == c0.reading().value + c0.step().millis,
        c1.reading() == t1,
        c1.step() == c0.step(),
        t2.value == c1.reading().value + c1.step().millis,
    ensures
        t2.value == t1.value + c0.step().millis,
        c0.step().millis > 0 ==> t1.value < t2.value,
{
}

/// `rs[k]` is what read `k` of an incrementing clock returned, made on the
/// clock `cs[k]`, which it left as `cs[k + 1]`.
pub open spec fn successive_reads(cs: Seq<IncFakeClock>, rs: Seq<Timestamp>) -> bool {
    &&& cs.len() == rs.len() + 1
    &&& forall|k: int| 0 <= k < rs.len() ==> {
        &&& #[trigger] rs[k].value == cs[k].reading().value + cs[k].step().millis
        &&& cs[k + 1].reading() == rs[k]
        &&& cs[k + 1].step() == cs[k].step()
    }
}

proof fn lemma_inc_clock_at(cs: Seq<IncFakeClock>, rs: Seq<Timestamp>, k: int)
    requires
        successive_reads(cs, rs),
        0 <= k <= rs.len(),
    ensures
        cs[k].reading().value == cs[0].reading().value + k * cs[0].step().millis,
        cs[k].step() == cs[0].step(),
    decreases k,
{
    if k > 0 {
        lemma_inc_clock_at(cs, rs, k - 1);
        let d = cs[0].step().millis as int;
        assert(rs[k - 1].value == cs[k - 1].reading().value + cs[k - 1].step().millis);
        assert(cs[k].reading() == rs[k - 1]);
        assert((k - 1) * d + d == k * d) by (nonlinear_arith);
    } else {
        assert(0 * cs[0].step().millis == 0);
    }
}

/// Reads of an incrementing clock, made one at a time (each read holds the
/// clock exclusively), where `cs[k]` is the clock before read `k` and `rs[k]`
/// what that read returned: read `k` returns the start value plus `k + 1`
/// increments, the clock ends at the start value plus one increment per read,
/// and with a positive increment no two reads return the same value.
pub proof fn lemma_inc_clock_reads(cs: Seq<IncFakeClock>, rs: Seq<Timestamp>)
    requires
        successive_reads(cs, rs),
    ensures
        forall|k: int| 0 <= k < rs.len() ==> #[trigger] rs[k].value == cs[0].reading().value + (k + 1) * cs[0].step().millis,
        cs[rs.len() as int].reading().value == cs[0].reading().value + rs.len() * cs[0].step().millis,
        cs[0].step().millis > 0 ==> forall|i: int, j: int| 0 <= i < j < rs.len() ==> #[trigger] rs[i].value < #[trigger] rs[j].value,
{
    let t = cs[0].reading().value as int;
    let d = cs[0].step().millis as int;
    lemma_inc_clock_at(cs, rs, rs.len() as int);
    assert forall|k: int| 0 <= k < rs.len() implies #[trigger] rs[k].value == t + (k + 1) * d by {
        lemma_inc_clock_at(cs, rs, k);
        assert(k * d + d == (k + 1) * d) by (nonlinear_arith);
    }
    if d > 0 {
        assert forall|i: int, j: int| 0 <= i < j < rs.len() implies #[trigger] rs[i].value < #[trigger] rs[j].value by {
            assert((i + 1) * d < (j + 1) * d) by (nonlinear_arith)
                requires
                    i < j,
                    d > 0,
            ;
        }
    }
}

} // verus!
