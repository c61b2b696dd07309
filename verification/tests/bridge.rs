//! Tying a simulation to physics.
use virtmcu::cyber_bridge::actuators::{
    actuator_filter, read_command, ActuatorBuffer, ActuatorSample,
};
use virtmcu::cyber_bridge::node::{
    body_shm_path, body_shm_size, connect_json, sensor_topic, AdvanceError, NodeClock,
};
use virtmcu::cyber_bridge::physics::{
    control_bytes, frame_request, gateway_timeout_text, model_timeout_text, model_wait,
    next_sequence, read_sensors, request_length, required_control_bytes, shm_path, ModelWait,
    NothingToShare, ShmLayout, StepCounter, TickOnlyPlant, SHM_DATA_OFFSET, SHM_HEADER_SIZE,
};
use virtmcu::cyber_bridge::resd::recording;
use virtmcu::observability::{vtime_mark, DummyVTimeProvider, VTimeProvider};

fn sample(vtime_ns: u64, id: u32, x: f64) -> ActuatorSample {
    ActuatorSample { vtime_ns, id, values: vec![x.to_bits()] }
}

#[test]
fn commands_come_out_in_order() {
    let mut buffer = ActuatorBuffer::new();
    buffer.insert(20, 1, vec![1]);
    buffer.insert(10, 2, vec![2]);
    buffer.insert(20, 0, vec![3]);
    buffer.insert(20, 1, vec![4, 5]);
    assert_eq!(
        buffer.drain(),
        vec![
            ActuatorSample { vtime_ns: 10, id: 2, values: vec![2] },
            ActuatorSample { vtime_ns: 20, id: 0, values: vec![3] },
            ActuatorSample { vtime_ns: 20, id: 1, values: vec![4, 5] },
        ]
    );
    assert_eq!(buffer.drain(), vec![]);
}

#[test]
fn commands_are_read() {
    let mut data = 1.5f64.to_le_bytes().to_vec();
    data.extend_from_slice(&2.5f64.to_le_bytes());
    data.push(7);
    assert_eq!(
        read_command("firmware/control/3/7", &data),
        Some((7, vec![1.5f64.to_bits(), 2.5f64.to_bits()]))
    );
    assert_eq!(read_command("firmware/control/x", &data), None);
    assert_eq!(read_command("firmware/control/7", &data[..7]), None);
    assert_eq!(actuator_filter("firmware/control", 3), "firmware/control/3/**");
}

#[test]
fn addresses_become_a_list_once() {
    let list = connect_json("tcp/localhost:7447");
    assert_eq!(list, "[\"tcp/localhost:7447\"]");
    assert_eq!(connect_json(&list), list);
}

#[test]
fn clock_of_a_node_steps() {
    let mut clock = NodeClock::new(250);
    assert_eq!(clock.attempts(), 60);
    assert_eq!(clock.end_vtime(), 250);
    clock.end_quantum();
    clock.end_quantum();
    assert_eq!((clock.quantum_number, clock.absolute_vtime_ns), (2, 500));
    assert_eq!(clock.attempts(), 1);
    assert_eq!(clock.judge(Some(0), 1), Ok(()));
    assert_eq!(clock.judge(Some(1), 1), Err(AdvanceError::Stall(2)));
    assert_eq!(clock.judge(None, 1), Err(AdvanceError::NoAnswer(2)));
    assert_eq!(
        AdvanceError::Stall(2).message(),
        "Clock stall detected at quantum 2. Simulation aborted."
    );
    assert_eq!(AdvanceError::NoAnswer(3).message(), "Transport timeout or error at quantum 3");
    assert_eq!(sensor_topic("sim/sensor", 1, 4), "sim/sensor/1/sensordata_4");
}

#[test]
fn shared_memory_has_a_header_and_places() {
    let layout = ShmLayout::new(2, 3).unwrap();
    assert_eq!(layout.size(), 24 + 8 * 5);
    assert_eq!(layout.sensor_offset(1), 32);
    assert_eq!(layout.actuator_offset(0), 40);
    let header = layout.header();
    assert_eq!(header.len(), SHM_HEADER_SIZE);
    assert_eq!(&header[..8], &[2, 0, 0, 0, 3, 0, 0, 0]);
    assert_eq!(SHM_DATA_OFFSET, 24);
    assert_eq!(ShmLayout::new(0, 0), Err(NothingToShare));
    assert_eq!(shm_path(4), "/dev/shm/virtmcu_physics_4");
    assert_eq!(body_shm_size(1, 1), 32);
    assert_eq!(body_shm_path(4), "/dev/shm/virtmcu_mujoco_4");
}

#[test]
fn models_are_waited_for() {
    assert_eq!(next_sequence(u32::MAX), 0);
    assert_eq!(next_sequence(6), 7);
    assert_eq!(model_wait(7, 7, 0, 10), ModelWait::Answered);
    assert_eq!(model_wait(6, 7, 11, 10), ModelWait::TimedOut);
    assert_eq!(model_wait(6, 7, 1, 10), ModelWait::Waiting);
    assert!(model_timeout_text(9).contains('9'));
    assert!(gateway_timeout_text(12).contains("12"));
}

#[test]
fn last_command_counts() {
    let samples = vec![sample(1, 0, 1.0), sample(2, 0, 2.0), sample(2, 2, 3.0)];
    let mut expected = 2.0f64.to_le_bytes().to_vec();
    expected.extend_from_slice(&0.0f64.to_le_bytes());
    assert_eq!(control_bytes(&samples, 2), expected);
    assert_eq!(required_control_bytes(&samples, 2), None);
    assert_eq!(required_control_bytes(&samples, 1), Some(2.0f64.to_le_bytes().to_vec()));
}

#[test]
fn sensors_are_read_behind_the_header() {
    let mut memory = vec![0u8; 24];
    memory.extend_from_slice(&1.25f64.to_le_bytes());
    memory.extend_from_slice(&(-2.0f64).to_le_bytes());
    let readings = read_sensors(&memory, 2);
    assert_eq!(readings[0].values, vec![1.25f64.to_bits()]);
    assert_eq!((readings[1].id, readings[1].values[0]), (1, (-2.0f64).to_bits()));
}

#[test]
fn plant_without_a_model_only_ticks() {
    let mut plant = TickOnlyPlant;
    let state = plant.step(1000, &vec![sample(1, 0, 1.0)]).unwrap();
    assert!(state.sensors.is_empty());
    let mut counter = StepCounter { quantum_number: 3 };
    counter.end_step(false);
    assert_eq!(counter.quantum_number, 4);
}

#[test]
fn requests_read_back() {
    let framed = frame_request(&[9, 8]);
    assert_eq!(framed, vec![2, 0, 0, 0, 0, 0, 0, 0, 9, 8]);
    assert_eq!(request_length(&framed), 2);
}

#[test]
fn recordings_have_their_size() {
    let bytes = recording(&vec![1.0f64.to_bits(), 2.0f64.to_bits()], 1000);
    assert_eq!(&bytes[..9], &[b'R', b'E', b'S', b'D', 1, 0, 0, 0, 2]);
    assert_eq!(bytes.len(), 45 + 16);
    assert_eq!(&bytes[45..53], &1.0f64.to_le_bytes());
    assert_eq!(&bytes[13..21], &40u64.to_le_bytes());
}

#[test]
fn marks_tell_the_time() {
    assert_eq!(DummyVTimeProvider.current_vtime_ns(), 0);
    assert_eq!(vtime_mark(0), None);
    assert_eq!(vtime_mark(12345), Some(12345));
    assert_eq!(vtime_mark(u64::MAX), Some(-1));
}
