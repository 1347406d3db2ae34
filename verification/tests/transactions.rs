use i2c_iter::bus::{write_ops, write_read_ops, I2cIter};
use i2c_iter::operation::{Address, Operation};
use i2c_iter::reply::{BusFault, Reply};
use i2c_iter::scripted::{CoopTransaction, ScriptedBus};
use i2c_iter::source::{ByteSource, VecSource};

fn read_contents(op: &Operation<VecSource>) -> Vec<u8> {
    match op {
        Operation::Read(buf) => buf.clone(),
        Operation::WriteIter(_) => panic!("expected a read step"),
    }
}

fn drain_source(op: Operation<VecSource>) -> Vec<u8> {
    match op {
        Operation::WriteIter(mut src) => {
            let mut out = Vec::new();
            while let Some(b) = src.next() {
                out.push(b);
            }
            out
        }
        Operation::Read(_) => panic!("expected a write step"),
    }
}

#[test]
fn empty_transaction_succeeds() {
    let mut bus = ScriptedBus::new(Vec::new());
    let mut ops: Vec<Operation<VecSource>> = Vec::new();
    assert_eq!(bus.transaction_iter(Address::SevenBit(0x50), &mut ops), Ok(()));
}

#[test]
fn empty_transaction_succeeds_on_ten_bit_address() {
    let mut bus = ScriptedBus::new(Vec::new());
    let mut ops: Vec<Operation<VecSource>> = Vec::new();
    assert_eq!(bus.transaction_iter(Address::TenBit(0x150), &mut ops), Ok(()));
}

#[test]
fn write_matches_single_step_transaction() {
    let addr = Address::SevenBit(0x2A);

    let mut direct = ScriptedBus::new(vec![Reply::AckWrite]);
    let mut ops = vec![Operation::WriteIter(VecSource::new(vec![1, 2, 3]))];
    let r_direct = direct.transaction_iter(addr, &mut ops);

    let mut derived = ScriptedBus::new(vec![Reply::AckWrite]);
    let r_derived = derived.write_iter(addr, VecSource::new(vec![1, 2, 3]));

    assert_eq!(r_direct, Ok(()));
    assert_eq!(r_derived, r_direct);
}

#[test]
fn failed_write_matches_single_step_transaction() {
    let addr = Address::SevenBit(0x2A);

    let mut direct = ScriptedBus::new(vec![Reply::FailWrite(BusFault::NoAcknowledge)]);
    let mut ops = vec![Operation::WriteIter(VecSource::new(vec![1, 2, 3]))];
    let r_direct = direct.transaction_iter(addr, &mut ops);

    let mut derived = ScriptedBus::new(vec![Reply::FailWrite(BusFault::NoAcknowledge)]);
    let r_derived = derived.write_iter(addr, VecSource::new(vec![1, 2, 3]));

    assert_eq!(r_direct, Err(BusFault::NoAcknowledge));
    assert_eq!(r_derived, r_direct);
}

#[test]
fn write_of_empty_source_is_trivially_successful() {
    let mut bus = ScriptedBus::new(vec![Reply::AckWrite]);
    let r = bus.write_iter(Address::SevenBit(0x11), VecSource::new(Vec::new()));
    assert_eq!(r, Ok(()));
}

#[test]
fn write_then_read_matches_two_step_transaction() {
    let addr = Address::SevenBit(0x2A);
    let script = vec![Reply::AckWrite, Reply::GiveRead(vec![9, 8, 7, 6])];

    let mut direct = ScriptedBus::new(script.clone());
    let mut ops = vec![
        Operation::WriteIter(VecSource::new(vec![0x00, 0x10])),
        Operation::Read(vec![0; 4]),
    ];
    let r_direct = direct.transaction_iter(addr, &mut ops);
    assert_eq!(r_direct, Ok(()));
    assert_eq!(read_contents(&ops[1]), vec![9, 8, 7, 6]);

    let mut derived = ScriptedBus::new(script);
    let mut buffer = vec![0; 4];
    let r_derived = derived.write_iter_read(addr, VecSource::new(vec![0x00, 0x10]), &mut buffer);
    assert_eq!(r_derived, r_direct);
    assert_eq!(buffer, vec![9, 8, 7, 6]);
}

#[test]
fn steps_execute_strictly_in_order() {
    // [write b1, read r1, write b2] against a script in the same order: only
    // a strictly sequential execution matches the script step for step.
    let addr = Address::SevenBit(0x33);
    let mut bus = ScriptedBus::new(vec![
        Reply::AckWrite,
        Reply::GiveRead(vec![0x55, 0x66]),
        Reply::AckWrite,
    ]);
    let mut ops = vec![
        Operation::WriteIter(VecSource::new(vec![0x01])),
        Operation::Read(vec![0; 2]),
        Operation::WriteIter(VecSource::new(vec![0x02, 0x03])),
    ];
    assert_eq!(bus.transaction_iter(addr, &mut ops), Ok(()));
    assert_eq!(read_contents(&ops[1]), vec![0x55, 0x66]);
    // both write sources were fully transmitted
    assert_eq!(drain_source(ops.remove(2)), Vec::<u8>::new());
    assert_eq!(drain_source(ops.remove(0)), Vec::<u8>::new());
}

#[test]
fn out_of_order_script_fails_the_transaction() {
    // the device was prepared for a read first: a write step must not match it
    let addr = Address::SevenBit(0x33);
    let mut bus = ScriptedBus::new(vec![Reply::GiveRead(vec![0x55]), Reply::AckWrite]);
    let mut ops = vec![
        Operation::WriteIter(VecSource::new(vec![0x01])),
        Operation::Read(vec![0; 1]),
    ];
    assert_eq!(bus.transaction_iter(addr, &mut ops), Err(BusFault::Unexpected));
}

#[test]
fn failure_in_second_step_stops_the_third() {
    let addr = Address::SevenBit(0x42);
    let mut bus = ScriptedBus::new(vec![
        Reply::AckWrite,
        Reply::FailRead(BusFault::ArbitrationLoss),
        Reply::AckWrite,
    ]);
    let mut ops = vec![
        Operation::WriteIter(VecSource::new(vec![0x10])),
        Operation::Read(vec![0xEE; 3]),
        Operation::WriteIter(VecSource::new(vec![0x20, 0x21])),
    ];
    let r = bus.transaction_iter(addr, &mut ops);
    // the error of the failing step is propagated unchanged
    assert_eq!(r, Err(BusFault::ArbitrationLoss));
    // the failing read's target was left unmodified
    assert_eq!(read_contents(&ops[1]), vec![0xEE; 3]);
    // the third step was never executed: its source still holds every byte
    assert_eq!(drain_source(ops.remove(2)), vec![0x20, 0x21]);
}

#[test]
fn register_pointer_write_then_read() {
    // address 0x50, register pointer [0x00, 0x10], then a four-byte read
    let mut bus = ScriptedBus::new(vec![
        Reply::AckWrite,
        Reply::GiveRead(vec![0xDE, 0xAD, 0xBE, 0xEF]),
    ]);
    let mut buffer = vec![0; 4];
    let r = bus.write_iter_read(
        Address::SevenBit(0x50),
        VecSource::new(vec![0x00, 0x10]),
        &mut buffer,
    );
    assert_eq!(r, Ok(()));
    assert_eq!(buffer, vec![0xDE, 0xAD, 0xBE, 0xEF]);
}

#[test]
fn nacked_write_leaves_read_target_untouched() {
    let mut bus = ScriptedBus::new(vec![Reply::FailWrite(BusFault::NoAcknowledge)]);
    let mut buffer = vec![0xAA; 4];
    let r = bus.write_iter_read(
        Address::SevenBit(0x50),
        VecSource::new(vec![0x00, 0x10]),
        &mut buffer,
    );
    assert_eq!(r, Err(BusFault::NoAcknowledge));
    assert_eq!(buffer, vec![0xAA; 4]);
}

#[test]
fn exhausted_script_fails_the_step() {
    let mut bus = ScriptedBus::new(Vec::new());
    let r = bus.write_iter(Address::SevenBit(0x08), VecSource::new(vec![1]));
    assert_eq!(r, Err(BusFault::Unexpected));
}

#[test]
fn short_read_answer_is_not_a_success() {
    // a partial read is not a success: three bytes offered, four wanted
    let mut bus = ScriptedBus::new(vec![Reply::AckWrite, Reply::GiveRead(vec![1, 2, 3])]);
    let mut buffer = vec![0; 4];
    let r = bus.write_iter_read(Address::SevenBit(0x50), VecSource::new(vec![0]), &mut buffer);
    assert_eq!(r, Err(BusFault::Unexpected));
}

#[test]
fn op_builders_shape_the_sequences() {
    let ops = write_ops(VecSource::new(vec![1, 2]));
    assert_eq!(ops.len(), 1);
    assert!(matches!(ops[0], Operation::WriteIter(_)));

    let ops = write_read_ops(VecSource::new(vec![1, 2]), vec![0; 3]);
    assert_eq!(ops.len(), 2);
    assert!(matches!(ops[0], Operation::WriteIter(_)));
    assert_eq!(read_contents(&ops[1]), vec![0; 3]);
}

fn run_cooperatively(
    address: Address,
    ops: Vec<Operation<VecSource>>,
    script: Vec<Reply>,
) -> (Result<(), BusFault>, Vec<Operation<VecSource>>) {
    // one advance per resumption, exactly as a cooperatively scheduled caller
    // would feed hardware completions back into the machine
    let mut t = CoopTransaction::begin(address, ops);
    let mut replies = script.into_iter();
    while !t.is_done() {
        t.advance(replies.next());
    }
    t.finish()
}

#[test]
fn scheduling_flavors_agree_on_success() {
    let addr = Address::SevenBit(0x50);
    let script = vec![Reply::AckWrite, Reply::GiveRead(vec![4, 5, 6])];

    let mut blocking = ScriptedBus::new(script.clone());
    let mut ops = vec![
        Operation::WriteIter(VecSource::new(vec![0x00, 0x10])),
        Operation::Read(vec![0; 3]),
    ];
    let r_blocking = blocking.transaction_iter(addr, &mut ops);

    let coop_ops = vec![
        Operation::WriteIter(VecSource::new(vec![0x00, 0x10])),
        Operation::Read(vec![0; 3]),
    ];
    let (r_coop, coop_ops) = run_cooperatively(addr, coop_ops, script);

    assert_eq!(r_blocking, Ok(()));
    assert_eq!(r_coop, r_blocking);
    assert_eq!(read_contents(&coop_ops[1]), read_contents(&ops[1]));
}

#[test]
fn scheduling_flavors_agree_on_failure() {
    let addr = Address::TenBit(0x2A0);
    let script = vec![Reply::AckWrite, Reply::FailRead(BusFault::ArbitrationLoss)];

    let mut blocking = ScriptedBus::new(script.clone());
    let mut ops = vec![
        Operation::WriteIter(VecSource::new(vec![7])),
        Operation::Read(vec![0; 2]),
        Operation::WriteIter(VecSource::new(vec![8])),
    ];
    let r_blocking = blocking.transaction_iter(addr, &mut ops);

    let coop_ops = vec![
        Operation::WriteIter(VecSource::new(vec![7])),
        Operation::Read(vec![0; 2]),
        Operation::WriteIter(VecSource::new(vec![8])),
    ];
    let (r_coop, coop_ops) = run_cooperatively(addr, coop_ops, script);

    assert_eq!(r_blocking, Err(BusFault::ArbitrationLoss));
    assert_eq!(r_coop, r_blocking);
    assert_eq!(read_contents(&coop_ops[1]), read_contents(&ops[1]));
    assert_eq!(drain_source(coop_ops.into_iter().nth(2).unwrap()), vec![8]);
}
