//! Physical plants, and the memory that is shared with their models.
use vstd::prelude::*;

use crate::cyber_bridge::actuators;
use crate::cyber_bridge::actuators::ActuatorSample;
use crate::sorting;
use crate::text;
use crate::text::{decimal_text, joined2, joined3, numbered};
use crate::wire;
use crate::wire::{push_bytes, push_le, u64_at};

verus! {

/// Where the number of sensors stands.
pub const SHM_OFF_N_SENSORS: usize = 0;

/// Where the number of actuators stands.
pub const SHM_OFF_N_ACTUATORS: usize = 4;

/// Where the number stands that wakes the model.
pub const SHM_OFF_BRIDGE_SEQ: usize = 8;

/// Where the number stands by which the model answers.
pub const SHM_OFF_PHYSICS_SEQ: usize = 12;

/// Where the request to end stands.
pub const SHM_OFF_SHUTDOWN: usize = 16;

/// A place that is always zero.
pub const SHM_OFF_RESERVED: usize = 20;

/// Where the values of sensors begin; those of actuators follow.
pub const SHM_DATA_OFFSET: usize = 24;

/// The bytes before the values.
pub const SHM_HEADER_SIZE: usize = 24;

/// How shared memory is laid out: so many values of sensors, then so many of actuators.
#[derive(Debug, Clone, Copy, PartialEq, Eq, Structural)]
pub struct ShmLayout {
    pub n_sensors: u32,
    pub n_actuators: u32,
}

/// There is neither a sensor nor an actuator.
#[derive(Debug, Clone, Copy, PartialEq, Eq, Structural)]
pub struct NothingToShare;

impl NothingToShare {
    /// What is said of the error to the owner of the memory.
    pub fn message(&self, owner: &str) -> (r: String)
        ensures
            r@ == owner@ + " requires at least 1 sensor or 1 actuator. Failing loudly."@,
    {
        joined2(owner, " requires at least 1 sensor or 1 actuator. Failing loudly.")
    }
}

impl ShmLayout {
    /// There is something to share, and not too much of it.
    pub open spec fn wf(self) -> bool {
        0 < self.n_sensors + self.n_actuators <= u32::MAX
    }

    /// How many bytes are shared.
    pub open spec fn byte_count(self) -> int {
        24 + 8 * (self.n_sensors + self.n_actuators)
    }

    /// Where the value of a sensor stands.
    pub open spec fn sensor_at(self, i: int) -> int {
        24 + 8 * i
    }

    /// Where the value of an actuator stands.
    pub open spec fn actuator_at(self, i: int) -> int {
        24 + 8 * self.n_sensors + 8 * i
    }

    /// A layout for so many values.
    pub fn new(n_sensors: u32, n_actuators: u32) -> (r: Result<Self, NothingToShare>)
        requires
            n_sensors + n_actuators <= u32::MAX,
        ensures
            match r {
                Ok(l) => l.wf() && l.n_sensors == n_sensors && l.n_actuators == n_actuators,
                Err(_) => n_sensors == 0 && n_actuators == 0,
            },
    {
        if n_sensors == 0 && n_actuators == 0 {
            return Err(NothingToShare);
        }
        Ok(ShmLayout { n_sensors, n_actuators })
    }

    /// How many bytes are shared.
    pub fn size(&self) -> (r: u64)
        requires
            self.wf(),
        ensures
            r == self.byte_count(),
    {
        24 + (self.n_sensors + self.n_actuators) as u64 * 8
    }

    /// The bytes before the values, as they are at the start.
    pub fn header(&self) -> (r: Vec<u8>)
        ensures
            r@ == header_of(*self),
    {
        let mut out: Vec<u8> = Vec::new();
        push_le(&mut out, self.n_sensors as u64, 4);
        push_le(&mut out, self.n_actuators as u64, 4);
        push_le(&mut out, 0, 4);
        push_le(&mut out, 0, 4);
        push_le(&mut out, 0, 4);
        push_le(&mut out, 0, 4);
        proof {
            assert(out@ =~= header_of(*self));
        }
        out
    }

    /// Where the value of a sensor stands.
    pub fn sensor_offset(&self, i: u32) -> (r: u64)
        ensures
            r == self.sensor_at(i as int),
    {
        24 + i as u64 * 8
    }

    /// Where the value of an actuator stands.
    pub fn actuator_offset(&self, i: u32) -> (r: u64)
        ensures
            r == self.actuator_at(i as int),
    {
        24 + self.n_sensors as u64 * 8 + i as u64 * 8
    }
}

/// The bytes before the values, as they are at the start.
pub open spec fn header_of(l: ShmLayout) -> Seq<u8> {
    wire::le_bytes(l.n_sensors as nat, 4) + wire::le_bytes(l.n_actuators as nat, 4)
        + wire::le_bytes(0, 4) + wire::le_bytes(0, 4) + wire::le_bytes(0, 4) + wire::le_bytes(0, 4)
}

/// The header is as long as the constants say, and reads back at their places.
pub proof fn law_header_reads_back(l: ShmLayout)
    ensures
        header_of(l).len() == SHM_HEADER_SIZE,
        wire::le_at(header_of(l), SHM_OFF_N_SENSORS as int, 4) == l.n_sensors,
        wire::le_at(header_of(l), SHM_OFF_N_ACTUATORS as int, 4) == l.n_actuators,
        wire::le_at(header_of(l), SHM_OFF_BRIDGE_SEQ as int, 4) == 0,
        wire::le_at(header_of(l), SHM_OFF_PHYSICS_SEQ as int, 4) == 0,
        wire::le_at(header_of(l), SHM_OFF_SHUTDOWN as int, 4) == 0,
        wire::le_at(header_of(l), SHM_OFF_RESERVED as int, 4) == 0,
{
    let h = header_of(l);
    wire::lemma_le_bytes_len(l.n_sensors as nat, 4);
    wire::lemma_le_bytes_len(l.n_actuators as nat, 4);
    wire::lemma_le_bytes_len(0, 4);
    reveal_with_fuel(wire::byte_range, 5);
    wire::law_le_round_trip(l.n_sensors as nat, 4);
    wire::law_le_round_trip(l.n_actuators as nat, 4);
    wire::law_le_round_trip(0, 4);
    assert(h.subrange(0, 4) =~= wire::le_bytes(l.n_sensors as nat, 4));
    assert(h.subrange(4, 8) =~= wire::le_bytes(l.n_actuators as nat, 4));
    assert(h.subrange(8, 12) =~= wire::le_bytes(0, 4));
    assert(h.subrange(12, 16) =~= wire::le_bytes(0, 4));
    assert(h.subrange(16, 20) =~= wire::le_bytes(0, 4));
    assert(h.subrange(20, 24) =~= wire::le_bytes(0, 4));
}

/// Every value has eight bytes of its own within the shared memory, behind the header.
pub proof fn law_values_have_their_own_places(l: ShmLayout, i: int, j: int)
    requires
        l.wf(),
        0 <= i < l.n_sensors,
        0 <= j < l.n_actuators,
    ensures
        SHM_DATA_OFFSET <= l.sensor_at(i),
        l.sensor_at(i) + 8 <= l.sensor_at(i + 1) <= l.actuator_at(j),
        l.actuator_at(j) + 8 <= l.actuator_at(j + 1) <= l.byte_count(),
{
}

/// The path of the memory that a node shares.
pub fn shm_path(node_id: u32) -> (r: String)
    ensures
        r@ == "/dev/shm/virtmcu_physics_"@ + text::decimal(node_id as nat),
{
    numbered("/dev/shm/virtmcu_physics_", node_id as u64)
}

/// The number that follows another; the greatest is followed by zero.
pub open spec fn following(seq: u32) -> u32 {
    if seq == u32::MAX {
        0
    } else {
        (seq + 1) as u32
    }
}

/// The number that follows another.
pub fn next_sequence(seq: u32) -> (r: u32)
    ensures
        r == following(seq),
{
    seq.wrapping_add(1)
}

/// How waiting for the model goes on.
#[derive(Debug, Clone, Copy, PartialEq, Eq, Structural)]
pub enum ModelWait {
    Answered,
    TimedOut,
    Waiting,
}

/// How waiting for the model goes on: an answer counts even where the time is up.
pub fn model_wait(answered: u32, expected: u32, elapsed_ms: u128, timeout_ms: u64) -> (r: ModelWait)
    ensures
        r == if answered == expected {
            ModelWait::Answered
        } else if elapsed_ms > timeout_ms {
            ModelWait::TimedOut
        } else {
            ModelWait::Waiting
        },
{
    if answered == expected {
        ModelWait::Answered
    } else if elapsed_ms > timeout_ms as u128 {
        ModelWait::TimedOut
    } else {
        ModelWait::Waiting
    }
}

/// The value that an actuator has among the first `n` samples: the first one of the last sample
/// that has any. Values are bit patterns, and zero is that of the number 0.
pub open spec fn last_value(samples: Seq<actuators::SampleView>, id: u32, n: int) -> u64
    decreases n,
{
    if n <= 0 || n > samples.len() {
        0
    } else if samples[n - 1].id == id && samples[n - 1].values.len() > 0 {
        samples[n - 1].values[0]
    } else {
        last_value(samples, id, n - 1)
    }
}

/// The bytes of the values of actuators.
pub open spec fn control_bytes_of(samples: Seq<actuators::SampleView>, n_actuators: nat) -> Seq<u8>
    decreases n_actuators,
{
    if n_actuators == 0 {
        Seq::empty()
    } else {
        control_bytes_of(samples, (n_actuators - 1) as nat) + wire::le_bytes(
            last_value(samples, (n_actuators - 1) as u32, samples.len() as int) as nat,
            8,
        )
    }
}

fn find_last_value(samples: &Vec<ActuatorSample>, id: u32) -> (r: u64)
    ensures
        r == last_value(sorting::views(samples@), id, samples@.len() as int),
{
    let ghost all = sorting::views(samples@);
    let mut i: usize = samples.len();
    while i > 0
        invariant
            i <= samples@.len(),
            all == sorting::views(samples@),
            last_value(all, id, samples@.len() as int) == last_value(all, id, i as int),
        decreases i,
    {
        let s = &samples[i - 1];
        proof {
            assert(all[i - 1] == s@);
        }
        if s.id == id && s.values.len() > 0 {
            return s.values[0];
        }
        i -= 1;
    }
    0
}

/// The bytes of the values of actuators; an actuator that nothing was said of has the value 0.
pub fn control_bytes(samples: &Vec<ActuatorSample>, n_actuators: u32) -> (r: Vec<u8>)
    ensures
        r@ == control_bytes_of(sorting::views(samples@), n_actuators as nat),
{
    let mut out: Vec<u8> = Vec::new();
    let mut i: u32 = 0;
    while i < n_actuators
        invariant
            i <= n_actuators,
            out@ == control_bytes_of(sorting::views(samples@), i as nat),
        decreases n_actuators - i,
    {
        let value: u64 = find_last_value(samples, i);
        push_le(&mut out, value, 8);
        i += 1;
    }
    out
}

/// The last sample of an actuator among the first `n`.
pub open spec fn last_sample(samples: Seq<actuators::SampleView>, id: u32, n: int) -> Option<
    Seq<u64>,
>
    decreases n,
{
    if n <= 0 || n > samples.len() {
        None
    } else if samples[n - 1].id == id {
        Some(samples[n - 1].values)
    } else {
        last_sample(samples, id, n - 1)
    }
}

/// The bytes of the values of actuators where each must have one: `None` if one has not.
pub open spec fn required_bytes_of(samples: Seq<actuators::SampleView>, n_actuators: nat) -> Option<
    Seq<u8>,
>
    decreases n_actuators,
{
    if n_actuators == 0 {
        Some(Seq::empty())
    } else {
        match (
            required_bytes_of(samples, (n_actuators - 1) as nat),
            last_sample(samples, (n_actuators - 1) as u32, samples.len() as int),
        ) {
            (Some(front), Some(values)) => if values.len() > 0 {
                Some(front + wire::le_bytes(values[0] as nat, 8))
            } else {
                None
            },
            _ => None,
        }
    }
}

fn find_last_sample(samples: &Vec<ActuatorSample>, id: u32) -> (r: Option<u64>)
    ensures
        match last_sample(sorting::views(samples@), id, samples@.len() as int) {
            Some(values) => r == if values.len() > 0 {
                Some(values[0])
            } else {
                None
            },
            None => r is None,
        },
{
    let ghost all = sorting::views(samples@);
    let mut i: usize = samples.len();
    while i > 0
        invariant
            i <= samples@.len(),
            all == sorting::views(samples@),
            last_sample(all, id, samples@.len() as int) == last_sample(all, id, i as int),
        decreases i,
    {
        let s = &samples[i - 1];
        proof {
            assert(all[i - 1] == s@);
        }
        if s.id == id {
            if s.values.len() > 0 {
                return Some(s.values[0]);
            } else {
                return None;
            }
        }
        i -= 1;
    }
    None
}

/// The bytes of the values of actuators where each must have one; `None` if one has not, which
/// should not happen.
pub fn required_control_bytes(samples: &Vec<ActuatorSample>, n_actuators: u32) -> (r: Option<
    Vec<u8>,
>)
    ensures
        match r {
            Some(bytes) => required_bytes_of(sorting::views(samples@), n_actuators as nat) == Some(
                bytes@,
            ),
            None => required_bytes_of(sorting::views(samples@), n_actuators as nat) is None,
        },
{
    let mut out: Vec<u8> = Vec::new();
    let mut failed: bool = false;
    let mut i: u32 = 0;
    while i < n_actuators
        invariant
            i <= n_actuators,
            failed ==> required_bytes_of(sorting::views(samples@), i as nat) is None,
            !failed ==> required_bytes_of(sorting::views(samples@), i as nat) == Some(out@),
        decreases n_actuators - i,
    {
        match find_last_sample(samples, i) {
            Some(value) => {
                push_le(&mut out, value, 8);
            },
            None => {
                failed = true;
            },
        }
        i += 1;
    }
    if failed {
        None
    } else {
        Some(out)
    }
}

/// The state of a plant after a step: when, and what its sensors show.
#[derive(Debug, Clone, PartialEq, Eq)]
pub struct PlantState {
    pub vtime_ns: u64,
    pub sensors: Vec<SensorReading>,
}

/// What a sensor shows: bit patterns of values.
#[derive(Debug, Clone, PartialEq, Eq)]
pub struct SensorReading {
    pub id: u32,
    pub values: Vec<u64>,
}

#[verifier::ext_equal]
pub struct ReadingView {
    pub id: u32,
    pub values: Seq<u64>,
}

impl View for SensorReading {
    type V = ReadingView;

    open spec fn view(&self) -> ReadingView {
        ReadingView { id: self.id, values: self.values@ }
    }
}

/// What the sensors show, according to the shared memory.
pub open spec fn readings(memory: Seq<u8>, n: nat) -> Seq<ReadingView> {
    Seq::new(
        n,
        |i: int|
            ReadingView { id: i as u32, values: seq![wire::le_at(memory, 24 + 8 * i, 8) as u64] },
    )
}

/// Reads what the sensors show.
pub fn read_sensors(memory: &[u8], n_sensors: u32) -> (r: Vec<SensorReading>)
    requires
        24 + 8 * n_sensors <= memory@.len(),
    ensures
        sorting::views(r@) == readings(memory@, n_sensors as nat),
{
    let size: usize = memory.len();
    let mut r: Vec<SensorReading> = Vec::new();
    let mut i: u32 = 0;
    proof {
        assert(sorting::views(r@) =~= readings(memory@, 0));
    }
    while i < n_sensors
        invariant
            i <= n_sensors,
            24 + 8 * n_sensors <= memory@.len() == size,
            sorting::views(r@) == readings(memory@, i as nat),
        decreases n_sensors - i,
    {
        let value: u64 = u64_at(memory, 24 + 8 * i as usize);
        let mut values: Vec<u64> = Vec::new();
        values.push(value);
        let reading = SensorReading { id: i, values };
        let ghost before = sorting::views(r@);
        let ghost reading_view = reading@;
        r.push(reading);
        proof {
            assert(values@ =~= seq![value]);
            assert(sorting::views(r@) =~= before.push(reading_view));
            assert(sorting::views(r@) =~= readings(memory@, (i + 1) as nat));
        }
        i += 1;
    }
    r
}

/// A plant that lets time pass and does nothing else.
#[derive(Debug, Clone, Copy, PartialEq, Eq)]
pub struct TickOnlyPlant;

impl TickOnlyPlant {
    /// Lets a quantum pass. The time in the result is not used.
    pub fn step(&mut self, _quantum_ns: u64, _samples: &Vec<ActuatorSample>) -> (r: Result<
        PlantState,
        String,
    >)
        ensures
            r is Ok,
            r->Ok_0.vtime_ns == 0,
            r->Ok_0.sensors@ == Seq::<SensorReading>::empty(),
    {
        Ok(PlantState { vtime_ns: 0, sensors: Vec::new() })
    }
}

/// Which step of a distant plant is next.
#[derive(Debug, Clone, Copy, PartialEq, Eq, Structural)]
pub struct StepCounter {
    pub quantum_number: u64,
}

impl StepCounter {
    /// Ends a step: one that failed is still next.
    pub fn end_step(&mut self, failed: bool)
        requires
            old(self).quantum_number < u64::MAX,
        ensures
            final(self).quantum_number == if failed {
                old(self).quantum_number as int
            } else {
                old(self).quantum_number + 1
            },
    {
        if !failed {
            self.quantum_number = self.quantum_number + 1;
        }
    }
}

/// A request to a distant plant: its length with eight bytes, then the request.
pub open spec fn framed_request(request: Seq<u8>) -> Seq<u8> {
    wire::le_bytes(request.len(), 8) + request
}

/// A request to a distant plant as it is sent.
pub fn frame_request(request: &[u8]) -> (r: Vec<u8>)
    ensures
        r@ == framed_request(request@),
{
    let mut out: Vec<u8> = Vec::new();
    push_le(&mut out, request.len() as u64, 8);
    push_bytes(&mut out, request);
    proof {
        assert(out@ =~= framed_request(request@));
    }
    out
}

/// The length of a request, by the eight bytes before it.
pub fn request_length(prefix: &[u8]) -> (r: u64)
    requires
        prefix@.len() >= 8,
    ensures
        r == wire::le_at(prefix@, 0, 8),
{
    u64_at(prefix, 0)
}

/// The length before a request is that of the request, and the request follows it.
pub proof fn law_request_reads_back(request: Seq<u8>)
    requires
        request.len() <= u64::MAX,
    ensures
        wire::le_at(framed_request(request), 0, 8) == request.len(),
        framed_request(request).skip(8) == request,
{
    let f = framed_request(request);
    wire::lemma_le_bytes_len(request.len(), 8);
    reveal_with_fuel(wire::byte_range, 9);
    wire::law_le_round_trip(request.len(), 8);
    assert(f.subrange(0, 8) =~= wire::le_bytes(request.len(), 8));
    assert(f.skip(8) =~= request);
}

/// The bytes of an answer to such a request.
pub const ANSWER_SIZE: usize = 16;

/// What is said where a model does not answer in time.
pub fn model_timeout_text(bridge_seq: u32) -> (r: String)
    ensures
        r@ == "Physics engine timeout for bridge_seq "@ + text::decimal(bridge_seq as nat),
{
    numbered("Physics engine timeout for bridge_seq ", bridge_seq as u64)
}

/// What is said where a gateway's model does not answer in time.
pub fn gateway_timeout_text(vtime_ns: u64) -> (r: String)
    ensures
        r@ == "Physics engine timeout at vtime "@ + text::decimal(vtime_ns as nat) + "ns"@,
{
    joined3("Physics engine timeout at vtime ", decimal_text(vtime_ns).as_str(), "ns")
}

} // verus!
