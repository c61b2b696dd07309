//! What holds of the bridge between nodes and a physical model.
use vstd::prelude::*;

use crate::cyber_bridge::actuators;
use crate::cyber_bridge::actuators::SampleView;
use crate::cyber_bridge::node;
use crate::cyber_bridge::physics;
use crate::cyber_bridge::resd;
use crate::deterministic_coordinator::frame_laws as wire_laws;
use crate::observability;
use crate::text;
use crate::text_laws;
use crate::wire;

verus! {

proof fn lemma_recorded_words(values: Seq<u64>, rest: Seq<u8>, i: int)
    requires
        0 <= i < values.len(),
    ensures
        resd::recorded_words(values).len() == 8 * values.len(),
        wire::le_at(resd::recorded_words(values) + rest, 8 * i, 8) == values[i],
    decreases values.len(),
{
    let front = resd::recorded_words(values.drop_last());
    let last = wire::le_bytes(values.last() as nat, 8);
    wire::lemma_le_bytes_len(values.last() as nat, 8);
    if values.len() > 1 {
        lemma_recorded_words(values.drop_last(), last + rest, 0);
    }
    wire_laws::lemma_byte_ranges();
    if i == values.len() - 1 {
        wire_laws::lemma_number_in(front, values.last() as nat, 8, rest);
    } else {
        lemma_recorded_words(values.drop_last(), last + rest, i);
        assert(front + (last + rest) =~= resd::recorded_words(values) + rest);
    }
}

/// Words that were written one behind the other read back, in order, whatever is too short behind
/// them.
pub proof fn law_words_read_back(values: Seq<u64>, rest: Seq<u8>)
    requires
        rest.len() < 8,
    ensures
        wire::words(resd::recorded_words(values) + rest) == values,
{
    let data = resd::recorded_words(values) + rest;
    assert(resd::recorded_words(values).len() == 8 * values.len()) by {
        if values.len() > 0 {
            lemma_recorded_words(values, rest, 0);
        }
    }
    assert forall|i: int| 0 <= i < values.len() implies wire::words(data)[i] == #[trigger] values[i] by {
        lemma_recorded_words(values, rest, i);
    }
    assert(wire::words(data) =~= values);
}

/// A command is for the actuator that the last part of its topic names, with the values that were
/// written; without a value, or for no number, it is none.
pub proof fn law_command_reads_back(prefix: Seq<char>, id: u32, values: Seq<u64>, short: Seq<u8>)
    requires
        values.len() > 0,
        short.len() < 8,
    ensures
        ({
            let topic = prefix + seq!['/'] + text::decimal(id as nat);
            &&& actuators::command_of(topic, resd::recorded_words(values) + short) == Some(
                (id, values),
            )
            &&& actuators::command_of(topic, short) is None
        }),
        actuators::command_of(prefix + seq!['/'], resd::recorded_words(values)) is None,
{
    let name = text::decimal(id as nat);
    let topic = prefix + seq!['/'] + name;
    wire_laws::lemma_decimal_is_one_part(id as nat);
    text_laws::law_split_of_one(name, '/');
    text_laws::lemma_split_concat(prefix, '/', name);
    assert(text::split_on(topic, '/').last() == name);
    text::law_decimal_reads_back(id as nat, u32::MAX as nat);
    law_words_read_back(values, short);
    lemma_recorded_words(values, short, 0);
    let none = Seq::<char>::empty();
    text_laws::law_split_of_one(none, '/');
    text_laws::lemma_split_concat(prefix, '/', none);
    assert(prefix + seq!['/'] + none =~= prefix + seq!['/']);
    assert(text::split_on(prefix + seq!['/'], '/').last() == none);
}

/// A recording tells the time between its samples, and the samples read back from behind its
/// header.
pub proof fn law_recording_reads_back(values: Seq<u64>, period_ns: u64, i: int)
    requires
        24 + 8 * values.len() <= u64::MAX,
        0 <= i < values.len(),
    ensures
        ({
            let header = resd::recording_header(values.len(), period_ns);
            let bytes = header + resd::recorded_words(values);
            &&& header.len() == 45
            &&& bytes.take(8) == seq![82u8, 69, 83, 68, 1, 0, 0, 0]
            &&& wire::le_at(bytes, 21, 8) == 0
            &&& wire::le_at(bytes, 29, 8) == period_ns
            &&& wire::le_at(bytes, 45 + 8 * i, 8) == values[i]
            &&& bytes.len() == 45 + 8 * values.len()
        }),
{
    let magic = seq![82u8, 69, 83, 68, 1, 0, 0, 0, 2];
    let a = wire::le_bytes(10, 2);
    let b = wire::le_bytes(0, 2);
    let c = wire::le_bytes(24 + 8 * values.len(), 8);
    let d = wire::le_bytes(0, 8);
    let e = wire::le_bytes(period_ns as nat, 8);
    let header = resd::recording_header(values.len(), period_ns);
    let words = resd::recorded_words(values);
    let bytes = header + words;
    wire::lemma_le_bytes_len(10, 2);
    wire::lemma_le_bytes_len(0, 2);
    wire::lemma_le_bytes_len(24 + 8 * values.len(), 8);
    wire::lemma_le_bytes_len(0, 8);
    wire::lemma_le_bytes_len(period_ns as nat, 8);
    wire_laws::lemma_byte_ranges();
    assert(bytes.take(8) =~= seq![82u8, 69, 83, 68, 1, 0, 0, 0]);
    wire_laws::lemma_number_in(magic + a + b + c, 0, 8, e + d + words);
    assert((magic + a + b + c) + d + (e + d + words) =~= bytes);
    wire_laws::lemma_number_in(magic + a + b + c + d, period_ns as nat, 8, d + words);
    assert((magic + a + b + c + d) + e + (d + words) =~= bytes);
    lemma_recorded_words(values, Seq::empty(), i);
    let at = 45 + 8 * i;
    assert(bytes.subrange(at, at + 8) =~= (words + Seq::<u8>::empty()).subrange(8 * i, 8 * i + 8));
}

/// What an actuator is set to is the first value of the last sample for it that has one; without
/// such a sample it is zero.
pub proof fn law_last_value(samples: Seq<SampleView>, id: u32, n: int, k: int)
    requires
        0 <= n <= samples.len(),
    ensures
        0 <= k < n && samples[k].id == id && samples[k].values.len() > 0 && (forall|j: int|
            k < j < n ==> !((#[trigger] samples[j]).id == id && samples[j].values.len() > 0))
            ==> physics::last_value(samples, id, n) == samples[k].values[0],
        (forall|j: int|
            0 <= j < n ==> !((#[trigger] samples[j]).id == id && samples[j].values.len() > 0))
            ==> physics::last_value(samples, id, n) == 0,
    decreases n,
{
    if n > 0 {
        law_last_value(samples, id, n - 1, k);
        assert(samples[n - 1].id == id || samples[n - 1].id != id);
    }
}

/// The bytes for the model hold what each actuator is set to, at its place.
pub proof fn law_control_bytes_read_back(samples: Seq<SampleView>, n: nat, i: int)
    requires
        0 <= i < n <= u32::MAX,
    ensures
        physics::control_bytes_of(samples, n).len() == 8 * n,
        wire::le_at(physics::control_bytes_of(samples, n), 8 * i, 8) == physics::last_value(
            samples,
            i as u32,
            samples.len() as int,
        ),
    decreases n,
{
    lemma_control_bytes(samples, n, i, Seq::empty());
    let bytes = physics::control_bytes_of(samples, n);
    assert(bytes + Seq::<u8>::empty() =~= bytes);
}

proof fn lemma_control_bytes(samples: Seq<SampleView>, n: nat, i: int, rest: Seq<u8>)
    requires
        0 <= i < n <= u32::MAX,
    ensures
        physics::control_bytes_of(samples, n).len() == 8 * n,
        wire::le_at(physics::control_bytes_of(samples, n) + rest, 8 * i, 8) == physics::last_value(
            samples,
            i as u32,
            samples.len() as int,
        ),
    decreases n,
{
    let front = physics::control_bytes_of(samples, (n - 1) as nat);
    let v = physics::last_value(samples, (n - 1) as u32, samples.len() as int);
    let last = wire::le_bytes(v as nat, 8);
    wire::lemma_le_bytes_len(v as nat, 8);
    wire_laws::lemma_byte_ranges();
    if n > 1 {
        lemma_control_bytes(samples, (n - 1) as nat, 0, last + rest);
    }
    if i == n - 1 {
        wire_laws::lemma_number_in(front, v as nat, 8, rest);
    } else {
        lemma_control_bytes(samples, (n - 1) as nat, i, last + rest);
        assert(front + (last + rest) =~= physics::control_bytes_of(samples, n) + rest);
    }
}

/// The last sample for an actuator is the one that is found; without any there is none.
pub proof fn law_last_sample(samples: Seq<SampleView>, id: u32, n: int, k: int)
    requires
        0 <= n <= samples.len(),
    ensures
        0 <= k < n && samples[k].id == id && (forall|j: int|
            k < j < n ==> (#[trigger] samples[j]).id != id) ==> physics::last_sample(
            samples,
            id,
            n,
        ) == Some(samples[k].values),
        (forall|j: int| 0 <= j < n ==> (#[trigger] samples[j]).id != id) ==> physics::last_sample(
            samples,
            id,
            n,
        ) is None,
    decreases n,
{
    if n > 0 {
        law_last_sample(samples, id, n - 1, k);
        assert(samples[n - 1].id == id || samples[n - 1].id != id);
    }
}

/// Where every actuator must be set, there are bytes for the model if and only if the last sample
/// for each of them has a value; they then hold what each is set to.
pub proof fn law_required_bytes(samples: Seq<SampleView>, n: nat)
    requires
        n <= u32::MAX,
    ensures
        physics::required_bytes_of(samples, n) is Some <==> forall|i: nat|
            i < n ==> {
                let s = #[trigger] physics::last_sample(samples, i as u32, samples.len() as int);
                s is Some && s->0.len() > 0
            },
        physics::required_bytes_of(samples, n) is Some ==> physics::required_bytes_of(samples, n)
            == Some(physics::control_bytes_of(samples, n)),
    decreases n,
{
    if n > 0 {
        law_required_bytes(samples, (n - 1) as nat);
        let last = (n - 1) as nat;
        let s = physics::last_sample(samples, last as u32, samples.len() as int);
        lemma_last_sample_has_value(samples, last as u32, samples.len() as int);
        if physics::required_bytes_of(samples, n) is Some {
            assert forall|i: nat| i < n implies {
                let s = #[trigger] physics::last_sample(samples, i as u32, samples.len() as int);
                s is Some && s->0.len() > 0
            } by {
                assert(i < last || i == last);
            }
        }
    }
}

proof fn lemma_last_sample_has_value(samples: Seq<SampleView>, id: u32, n: int)
    requires
        0 <= n <= samples.len(),
    ensures
        physics::last_sample(samples, id, n) matches Some(values) ==> values.len() > 0
            ==> physics::last_value(samples, id, n) == values[0],
    decreases n,
{
    if n > 0 {
        lemma_last_sample_has_value(samples, id, n - 1);
    }
}

/// The model's sensors read back from behind the header of the shared memory, each with its own
/// number.
pub proof fn law_sensors_read_back(header: Seq<u8>, values: Seq<u64>, rest: Seq<u8>, i: int)
    requires
        header.len() == 24,
        0 <= i < values.len() <= u32::MAX,
    ensures
        ({
            let memory = header + resd::recorded_words(values) + rest;
            let read = physics::readings(memory, values.len());
            &&& read.len() == values.len()
            &&& read[i].id == i
            &&& read[i].values == seq![values[i]]
        }),
{
    let words = resd::recorded_words(values);
    let memory = header + words + rest;
    lemma_recorded_words(values, rest, i);
    let at = 24 + 8 * i;
    assert(memory.subrange(at, at + 8) =~= (words + rest).subrange(8 * i, 8 * i + 8));
}

/// The number that follows is one more, and after the last comes the first.
pub proof fn law_sequence_follows(seq: u32)
    ensures
        seq < u32::MAX ==> physics::following(seq) == seq + 1,
        physics::following(u32::MAX) == 0,
        physics::following(seq) != seq,
{
}

/// An address is put into a list, unless it is one.
pub proof fn law_address_list(address: Seq<char>, inner: Seq<char>)
    ensures
        address.len() == 0 || address[0] != '[' ==> node::address_list(address) == "[\""@ + address
            + "\"]"@,
        node::address_list(seq!['['] + inner + seq![']']) == seq!['['] + inner + seq![']'],
{
    let list = seq!['['] + inner + seq![']'];
    assert(list.last() == ']');
}

/// A time is marked unless it is zero, and the mark is the number with the same sixty-four bits.
pub proof fn law_marks(vtime_ns: u64, other: u64)
    ensures
        observability::mark_of(vtime_ns) is None <==> vtime_ns == 0,
        vtime_ns != 0 ==> ({
            let mark = observability::mark_of(vtime_ns)->0;
            mark == vtime_ns || mark + 0x1_0000_0000_0000_0000 == vtime_ns
        }),
        observability::mark_of(vtime_ns) == observability::mark_of(other) ==> vtime_ns == other,
{
}

/// Of the samples for one time and one actuator the last counts; those for others stay.
pub proof fn law_command_map(s: Seq<SampleView>, x: SampleView, key: (u64, u32))
    ensures
        ({
            let then = actuators::command_map(s.push(x));
            &&& then.contains_key((x.vtime_ns, x.id)) && then[(x.vtime_ns, x.id)] == x.values
            &&& key != (x.vtime_ns, x.id) ==> (then.contains_key(key)
                <==> actuators::command_map(s).contains_key(key)) && then[key]
                == actuators::command_map(s)[key]
            &&& !actuators::command_map(Seq::empty()).contains_key(key)
        }),
{
    assert(s.push(x).drop_last() =~= s);
}

} // verus!
