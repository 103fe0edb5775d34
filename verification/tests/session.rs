use std::cell::RefCell;
use std::collections::HashMap;
use std::rc::Rc;

use srix4k::{
    BaudRate, Error, FramingError, Modulation, ModulationType, Srix4k, Srix4kCached, Timeout,
    Transport,
};

/// What a test reader was asked to do.
#[derive(Clone, Debug, PartialEq, Eq)]
enum Call {
    Discover(Modulation, usize),
    Select(Modulation),
    Transceive(Vec<u8>, usize, Timeout),
    Send(Vec<u8>, Timeout),
}

#[derive(Clone, Copy, Debug, PartialEq, Eq)]
enum Fault {
    NoTag,
    NotSelected,
    Timeout,
    Rf,
}

/// A tag in memory, with faults that a test can switch on.
#[derive(Default)]
struct Bench {
    calls: Vec<Call>,
    blocks: HashMap<u8, u32>,
    uid: u64,
    discovery_fails: bool,
    selection_fails: bool,
    reads_fail: bool,
    short_replies: bool,
    failing_write: Option<u8>,
}

impl Bench {
    fn reads(&self) -> Vec<u8> {
        self.calls
            .iter()
            .filter_map(|call| match call {
                Call::Transceive(frame, _, _) if frame[0] == 0x08 => Some(frame[1]),
                _ => None,
            })
            .collect()
    }

    fn writes(&self) -> Vec<Vec<u8>> {
        self.calls
            .iter()
            .filter_map(|call| match call {
                Call::Send(frame, _) => Some(frame.clone()),
                _ => None,
            })
            .collect()
    }

    fn uid_requests(&self) -> usize {
        self.calls
            .iter()
            .filter(|call| matches!(call, Call::Transceive(frame, _, _) if frame[0] == 0x0B))
            .count()
    }
}

struct Reader(Rc<RefCell<Bench>>);

impl Transport for Reader {
    type Error = Fault;

    fn list_passive_targets(
        &mut self,
        modulation: Modulation,
        max_targets: usize,
    ) -> Result<(), Fault> {
        let mut bench = self.0.borrow_mut();
        bench.calls.push(Call::Discover(modulation, max_targets));
        if bench.discovery_fails {
            Err(Fault::NoTag)
        } else {
            Ok(())
        }
    }

    fn select_passive_target(&mut self, modulation: Modulation) -> Result<(), Fault> {
        let mut bench = self.0.borrow_mut();
        bench.calls.push(Call::Select(modulation));
        if bench.selection_fails {
            Err(Fault::NotSelected)
        } else {
            Ok(())
        }
    }

    fn transceive(
        &mut self,
        frame: &[u8],
        reply_len: usize,
        timeout: Timeout,
    ) -> Result<Vec<u8>, Fault> {
        let mut bench = self.0.borrow_mut();
        bench.calls.push(Call::Transceive(frame.to_vec(), reply_len, timeout));
        if bench.reads_fail {
            return Err(Fault::Timeout);
        }
        let mut reply = match frame[0] {
            0x08 => bench.blocks.get(&frame[1]).copied().unwrap_or(0).to_le_bytes().to_vec(),
            0x0B => bench.uid.to_le_bytes().to_vec(),
            _ => Vec::new(),
        };
        if bench.short_replies {
            reply.pop();
        }
        Ok(reply)
    }

    fn send(&mut self, frame: &[u8], timeout: Timeout) -> Result<(), Fault> {
        let mut bench = self.0.borrow_mut();
        bench.calls.push(Call::Send(frame.to_vec(), timeout));
        if bench.failing_write == Some(frame[1]) {
            return Err(Fault::Rf);
        }
        let value = u32::from_le_bytes([frame[2], frame[3], frame[4], frame[5]]);
        bench.blocks.insert(frame[1], value);
        Ok(())
    }
}

fn bench() -> Rc<RefCell<Bench>> {
    Rc::new(RefCell::new(Bench::default()))
}

const DISCOVERY: Modulation =
    Modulation { modulation_type: ModulationType::Iso14443b, baud_rate: BaudRate::Baud106 };
const SELECTION: Modulation =
    Modulation { modulation_type: ModulationType::Iso14443b2sr, baud_rate: BaudRate::Baud106 };

fn session(bench: &Rc<RefCell<Bench>>) -> Srix4k<Reader> {
    let tag = Srix4k::connect_from(Reader(bench.clone())).ok().unwrap();
    bench.borrow_mut().calls.clear();
    tag
}

fn cached(bench: &Rc<RefCell<Bench>>) -> Srix4kCached<Reader> {
    let tag = Srix4kCached::connect_from(Reader(bench.clone())).ok().unwrap();
    bench.borrow_mut().calls.clear();
    tag
}

#[test]
fn connect_discovers_then_selects() {
    let bench = bench();
    assert!(Srix4k::connect_from(Reader(bench.clone())).is_ok());
    assert_eq!(bench.borrow().calls, vec![Call::Discover(DISCOVERY, 1), Call::Select(SELECTION)]);
}

#[test]
fn connect_stops_when_discovery_fails() {
    let bench = bench();
    bench.borrow_mut().discovery_fails = true;
    let session = Srix4k::connect_from(Reader(bench.clone()));
    assert_eq!(session.err(), Some(Error::Connect(Fault::NoTag)));
    assert_eq!(bench.borrow().calls, vec![Call::Discover(DISCOVERY, 1)]);
}

#[test]
fn connect_fails_when_selection_fails() {
    let bench = bench();
    bench.borrow_mut().selection_fails = true;
    let session = Srix4k::connect_from(Reader(bench.clone()));
    assert_eq!(session.err(), Some(Error::Connect(Fault::NotSelected)));
    assert_eq!(bench.borrow().calls, vec![Call::Discover(DISCOVERY, 1), Call::Select(SELECTION)]);
}

#[test]
fn cached_connect_discovers_then_selects() {
    let bench = bench();
    assert!(Srix4kCached::connect_from(Reader(bench.clone())).is_ok());
    assert_eq!(bench.borrow().calls, vec![Call::Discover(DISCOVERY, 1), Call::Select(SELECTION)]);
}

#[test]
fn cached_connect_reports_the_connect_error() {
    let bench = bench();
    bench.borrow_mut().discovery_fails = true;
    let tag = Srix4kCached::connect_from(Reader(bench.clone()));
    assert_eq!(tag.err(), Some(Error::Connect(Fault::NoTag)));
    let bench = self::bench();
    bench.borrow_mut().selection_fails = true;
    let tag = Srix4kCached::connect_from(Reader(bench.clone()));
    assert_eq!(tag.err(), Some(Error::Connect(Fault::NotSelected)));
}

#[test]
fn read_block_is_one_transceive_of_four_bytes_without_timeout() {
    let bench = bench();
    bench.borrow_mut().blocks.insert(9, 0xDEAD_BEEF);
    let mut tag = session(&bench);
    assert_eq!(tag.send_read_block(9), Ok(0xDEAD_BEEF));
    assert_eq!(bench.borrow().calls, vec![Call::Transceive(vec![0x08, 0x09], 4, Timeout::Never)]);
}

#[test]
fn read_block_passes_the_transport_error_on() {
    let bench = bench();
    let mut tag = session(&bench);
    bench.borrow_mut().reads_fail = true;
    assert_eq!(tag.send_read_block(3), Err(Error::Transport(Fault::Timeout)));
    assert_eq!(bench.borrow().calls.len(), 1);
}

#[test]
fn read_block_rejects_a_short_reply() {
    let bench = bench();
    let mut tag = session(&bench);
    bench.borrow_mut().short_replies = true;
    assert_eq!(
        tag.send_read_block(3),
        Err(Error::Framing(FramingError { expected: 4, actual: 3 }))
    );
}

#[test]
fn write_block_is_one_send_without_timeout() {
    let bench = bench();
    let mut tag = session(&bench);
    assert_eq!(tag.send_write_block(0, 0x1234_5678), Ok(()));
    assert_eq!(
        bench.borrow().calls,
        vec![Call::Send(vec![0x09, 0x00, 0x78, 0x56, 0x34, 0x12], Timeout::Never)]
    );
    assert_eq!(bench.borrow().blocks.get(&0), Some(&0x1234_5678));
}

#[test]
fn write_block_passes_the_transport_error_on() {
    let bench = bench();
    let mut tag = session(&bench);
    bench.borrow_mut().failing_write = Some(4);
    assert_eq!(tag.send_write_block(4, 1), Err(Error::Transport(Fault::Rf)));
    assert_eq!(tag.send_write_block(5, 1), Ok(()));
    assert_eq!(bench.borrow().calls.len(), 2);
}

#[test]
fn get_uid_is_one_transceive_of_eight_bytes_without_timeout() {
    let bench = bench();
    bench.borrow_mut().uid = 0xD002_0304_0506_0708;
    let mut tag = session(&bench);
    assert_eq!(tag.send_get_uid(), Ok(0xD002_0304_0506_0708));
    assert_eq!(bench.borrow().calls, vec![Call::Transceive(vec![0x0B], 8, Timeout::Never)]);
}

#[test]
fn get_uid_rejects_a_short_reply_and_passes_errors_on() {
    let bench = bench();
    let mut tag = session(&bench);
    bench.borrow_mut().short_replies = true;
    assert_eq!(tag.send_get_uid(), Err(Error::Framing(FramingError { expected: 8, actual: 7 })));
    bench.borrow_mut().reads_fail = true;
    assert_eq!(tag.send_get_uid(), Err(Error::Transport(Fault::Timeout)));
}

#[test]
fn session_reads_every_time_it_is_asked() {
    let bench = bench();
    let mut tag = session(&bench);
    assert_eq!(tag.send_read_block(1), Ok(0));
    assert_eq!(tag.send_read_block(1), Ok(0));
    assert_eq!(bench.borrow().reads(), vec![1, 1]);
}

#[test]
fn get_reads_a_block_once() {
    let bench = bench();
    bench.borrow_mut().blocks.insert(5, 77);
    let mut tag = cached(&bench);
    assert_eq!(tag.eeprom_get(5), Ok(77));
    assert_eq!(tag.eeprom_get(5), Ok(77));
    assert_eq!(tag.eeprom_get_mut(5).map(|block| *block), Ok(77));
    assert_eq!(tag.eeprom_get(5), Ok(77));
    assert_eq!(bench.borrow().calls, vec![Call::Transceive(vec![0x08, 0x05], 4, Timeout::Never)]);
}

#[test]
fn get_does_not_see_the_tag_change_behind_its_back() {
    let bench = bench();
    bench.borrow_mut().blocks.insert(5, 77);
    let mut tag = cached(&bench);
    assert_eq!(tag.eeprom_get(5), Ok(77));
    bench.borrow_mut().blocks.insert(5, 78);
    assert_eq!(tag.eeprom_get(5), Ok(77));
}

#[test]
fn each_address_is_read_once_and_by_its_own_address() {
    let bench = bench();
    for address in 0..128u8 {
        bench.borrow_mut().blocks.insert(address, 1000 + address as u32);
    }
    let mut tag = cached(&bench);
    for round in 0..3 {
        for address in 0..128usize {
            let block = if round == 1 {
                tag.eeprom_get_mut(address).map(|block| *block)
            } else {
                tag.eeprom_get(address)
            };
            assert_eq!(block, Ok(1000 + address as u32));
        }
    }
    assert_eq!(bench.borrow().reads(), (0..128u8).collect::<Vec<u8>>());
}

#[test]
fn failed_read_leaves_the_block_unknown() {
    let bench = bench();
    bench.borrow_mut().blocks.insert(2, 42);
    let mut tag = cached(&bench);
    bench.borrow_mut().reads_fail = true;
    assert_eq!(tag.eeprom_get(2), Err(Error::Transport(Fault::Timeout)));
    assert_eq!(tag.eeprom_get_mut(2).err(), Some(Error::Transport(Fault::Timeout)));
    bench.borrow_mut().reads_fail = false;
    bench.borrow_mut().short_replies = true;
    assert_eq!(tag.eeprom_get(2), Err(Error::Framing(FramingError { expected: 4, actual: 3 })));
    bench.borrow_mut().short_replies = false;
    assert_eq!(tag.eeprom_get(2), Ok(42));
    assert_eq!(tag.eeprom_get(2), Ok(42));
    assert_eq!(bench.borrow().reads(), vec![2, 2, 2, 2]);
    assert_eq!(tag.sync(), Ok(()));
    assert!(bench.borrow().writes().is_empty());
}

#[test]
fn get_mut_hands_out_the_current_value() {
    let bench = bench();
    bench.borrow_mut().blocks.insert(5, 10);
    let mut tag = cached(&bench);
    *tag.eeprom_get_mut(5).unwrap() = 11;
    assert_eq!(tag.eeprom_get(5), Ok(11));
    *tag.eeprom_get_mut(5).unwrap() += 1;
    assert_eq!(tag.eeprom_get(5), Ok(12));
    assert_eq!(bench.borrow().reads(), vec![5]);
    assert_eq!(bench.borrow().blocks.get(&5), Some(&10));
}

#[test]
fn changed_block_is_written_once_with_the_new_value() {
    let bench = bench();
    bench.borrow_mut().blocks.insert(5, 10);
    let mut tag = cached(&bench);
    *tag.eeprom_get_mut(5).unwrap() = 0xCAFE_F00D;
    assert_eq!(tag.sync(), Ok(()));
    assert_eq!(bench.borrow().writes(), vec![vec![0x09, 0x05, 0x0D, 0xF0, 0xFE, 0xCA]]);
    assert_eq!(bench.borrow().blocks.get(&5), Some(&0xCAFE_F00D));
    assert_eq!(tag.eeprom_get(5), Ok(0xCAFE_F00D));
}

#[test]
fn unchanged_block_is_not_written() {
    let bench = bench();
    bench.borrow_mut().blocks.insert(5, 10);
    let mut tag = cached(&bench);
    let block = tag.eeprom_get_mut(5).unwrap();
    assert_eq!(*block, 10);
    assert_eq!(tag.eeprom_get(6), Ok(0));
    assert_eq!(tag.sync(), Ok(()));
    assert!(bench.borrow().writes().is_empty());
}

#[test]
fn block_changed_and_changed_back_is_not_written() {
    let bench = bench();
    bench.borrow_mut().blocks.insert(5, 10);
    let mut tag = cached(&bench);
    *tag.eeprom_get_mut(5).unwrap() = 11;
    *tag.eeprom_get_mut(5).unwrap() = 10;
    assert_eq!(tag.sync(), Ok(()));
    assert!(bench.borrow().writes().is_empty());
}

#[test]
fn sync_of_a_fresh_cache_writes_nothing() {
    let bench = bench();
    let mut tag = cached(&bench);
    assert_eq!(tag.sync(), Ok(()));
    assert!(bench.borrow().calls.is_empty());
}

#[test]
fn second_sync_writes_nothing() {
    let bench = bench();
    let mut tag = cached(&bench);
    *tag.eeprom_get_mut(1).unwrap() = 1;
    *tag.eeprom_get_mut(100).unwrap() = 2;
    *tag.system_get_mut().unwrap() = 3;
    assert_eq!(tag.sync(), Ok(()));
    assert_eq!(bench.borrow().writes().len(), 3);
    bench.borrow_mut().calls.clear();
    assert_eq!(tag.sync(), Ok(()));
    assert_eq!(tag.sync(), Ok(()));
    assert!(bench.borrow().calls.is_empty());
}

#[test]
fn sync_writes_in_ascending_order_and_the_system_block_last() {
    let bench = bench();
    let mut tag = cached(&bench);
    *tag.system_get_mut().unwrap() = 0xAA;
    *tag.eeprom_get_mut(127).unwrap() = 4;
    *tag.eeprom_get_mut(16).unwrap() = 3;
    *tag.eeprom_get_mut(0).unwrap() = 1;
    *tag.eeprom_get_mut(7).unwrap() = 2;
    assert_eq!(tag.eeprom_get(8), Ok(0));
    assert_eq!(tag.sync(), Ok(()));
    assert_eq!(
        bench.borrow().writes(),
        vec![
            vec![0x09, 0, 1, 0, 0, 0],
            vec![0x09, 7, 2, 0, 0, 0],
            vec![0x09, 16, 3, 0, 0, 0],
            vec![0x09, 127, 4, 0, 0, 0],
            vec![0x09, 255, 0xAA, 0, 0, 0],
        ]
    );
    assert!(bench
        .borrow()
        .calls
        .iter()
        .all(|call| !matches!(call, Call::Send(_, timeout) if *timeout != Timeout::Never)));
}

#[test]
fn failed_write_stops_the_sync_and_a_retry_resumes_there() {
    let bench = bench();
    let mut tag = cached(&bench);
    *tag.eeprom_get_mut(2).unwrap() = 22;
    *tag.eeprom_get_mut(3).unwrap() = 33;
    *tag.eeprom_get_mut(4).unwrap() = 44;
    bench.borrow_mut().failing_write = Some(3);
    assert_eq!(tag.sync(), Err(Error::Transport(Fault::Rf)));
    assert_eq!(
        bench.borrow().writes(),
        vec![vec![0x09, 2, 22, 0, 0, 0], vec![0x09, 3, 33, 0, 0, 0]]
    );
    assert_eq!(tag.eeprom_get(2), Ok(22));
    assert_eq!(tag.eeprom_get(3), Ok(33));
    assert_eq!(tag.eeprom_get(4), Ok(44));

    bench.borrow_mut().calls.clear();
    assert_eq!(tag.sync(), Err(Error::Transport(Fault::Rf)));
    assert_eq!(bench.borrow().writes(), vec![vec![0x09, 3, 33, 0, 0, 0]]);

    bench.borrow_mut().calls.clear();
    bench.borrow_mut().failing_write = None;
    assert_eq!(tag.sync(), Ok(()));
    assert_eq!(
        bench.borrow().writes(),
        vec![vec![0x09, 3, 33, 0, 0, 0], vec![0x09, 4, 44, 0, 0, 0]]
    );
    assert_eq!(bench.borrow().blocks.get(&2), Some(&22));
    assert_eq!(bench.borrow().blocks.get(&3), Some(&33));
    assert_eq!(bench.borrow().blocks.get(&4), Some(&44));

    bench.borrow_mut().calls.clear();
    assert_eq!(tag.sync(), Ok(()));
    assert!(bench.borrow().calls.is_empty());
}

#[test]
fn failed_system_write_leaves_the_system_block_dirty() {
    let bench = bench();
    let mut tag = cached(&bench);
    *tag.eeprom_get_mut(1).unwrap() = 5;
    *tag.system_get_mut().unwrap() = 6;
    bench.borrow_mut().failing_write = Some(255);
    assert_eq!(tag.sync(), Err(Error::Transport(Fault::Rf)));
    assert_eq!(bench.borrow().writes().len(), 2);
    bench.borrow_mut().calls.clear();
    bench.borrow_mut().failing_write = None;
    assert_eq!(tag.sync(), Ok(()));
    assert_eq!(bench.borrow().writes(), vec![vec![0x09, 255, 6, 0, 0, 0]]);
}

#[test]
fn block_changed_after_a_sync_is_written_again() {
    let bench = bench();
    let mut tag = cached(&bench);
    *tag.eeprom_get_mut(9).unwrap() = 1;
    assert_eq!(tag.sync(), Ok(()));
    *tag.eeprom_get_mut(9).unwrap() = 0;
    bench.borrow_mut().calls.clear();
    assert_eq!(tag.sync(), Ok(()));
    assert_eq!(bench.borrow().calls, vec![Call::Send(vec![0x09, 9, 0, 0, 0, 0], Timeout::Never)]);
}

#[test]
fn system_block_lives_at_address_255() {
    let bench = bench();
    bench.borrow_mut().blocks.insert(255, 0x8000_0001);
    let mut tag = cached(&bench);
    assert_eq!(tag.system_get(), Ok(0x8000_0001));
    assert_eq!(tag.system_get(), Ok(0x8000_0001));
    assert_eq!(tag.system_get_mut().map(|block| *block), Ok(0x8000_0001));
    assert_eq!(bench.borrow().calls, vec![Call::Transceive(vec![0x08, 0xFF], 4, Timeout::Never)]);
    *tag.system_get_mut().unwrap() = 0x8000_0000;
    assert_eq!(tag.system_get(), Ok(0x8000_0000));
    assert_eq!(tag.sync(), Ok(()));
    assert_eq!(bench.borrow().writes(), vec![vec![0x09, 0xFF, 0, 0, 0, 0x80]]);
}

#[test]
fn failed_system_read_leaves_the_system_block_unknown() {
    let bench = bench();
    bench.borrow_mut().blocks.insert(255, 7);
    let mut tag = cached(&bench);
    bench.borrow_mut().reads_fail = true;
    assert_eq!(tag.system_get(), Err(Error::Transport(Fault::Timeout)));
    assert_eq!(tag.system_get_mut().err(), Some(Error::Transport(Fault::Timeout)));
    bench.borrow_mut().reads_fail = false;
    assert_eq!(tag.system_get(), Ok(7));
    assert_eq!(bench.borrow().reads(), vec![255, 255, 255]);
}

#[test]
fn uid_is_asked_for_once() {
    let bench = bench();
    bench.borrow_mut().uid = 0xD002_1122_3344_5566;
    let mut tag = cached(&bench);
    assert_eq!(tag.uid_get(), Ok(0xD002_1122_3344_5566));
    bench.borrow_mut().uid = 0;
    assert_eq!(tag.uid_get(), Ok(0xD002_1122_3344_5566));
    assert_eq!(bench.borrow().calls, vec![Call::Transceive(vec![0x0B], 8, Timeout::Never)]);
}

#[test]
fn failed_uid_request_is_tried_again() {
    let bench = bench();
    bench.borrow_mut().uid = 9;
    let mut tag = cached(&bench);
    bench.borrow_mut().short_replies = true;
    assert_eq!(tag.uid_get(), Err(Error::Framing(FramingError { expected: 8, actual: 7 })));
    bench.borrow_mut().short_replies = false;
    assert_eq!(tag.uid_get(), Ok(9));
    assert_eq!(tag.uid_get(), Ok(9));
    assert_eq!(bench.borrow().uid_requests(), 2);
}

#[test]
fn uid_then_block_zero_left_alone_writes_nothing() {
    let bench = bench();
    bench.borrow_mut().uid = 1;
    bench.borrow_mut().blocks.insert(0, 0xDEAD_BEEF);
    let mut tag = Srix4kCached::connect_from(Reader(bench.clone())).ok().unwrap();
    assert_eq!(tag.uid_get(), Ok(1));
    let block = tag.eeprom_get_mut(0).unwrap();
    assert_eq!(*block, 0xDEAD_BEEF);
    *block = 0xDEAD_BEEF;
    assert_eq!(tag.sync(), Ok(()));
    assert_eq!(
        bench.borrow().calls,
        vec![
            Call::Discover(DISCOVERY, 1),
            Call::Select(SELECTION),
            Call::Transceive(vec![0x0B], 8, Timeout::Never),
            Call::Transceive(vec![0x08, 0x00], 4, Timeout::Never),
        ]
    );
}

#[test]
fn block_zero_set_to_12345678_goes_out_as_one_frame() {
    let bench = bench();
    bench.borrow_mut().blocks.insert(0, 0);
    let mut tag = cached(&bench);
    *tag.eeprom_get_mut(0).unwrap() = 0x1234_5678;
    assert_eq!(tag.sync(), Ok(()));
    assert_eq!(
        bench.borrow().calls,
        vec![
            Call::Transceive(vec![0x08, 0x00], 4, Timeout::Never),
            Call::Send(vec![0x09, 0x00, 0x78, 0x56, 0x34, 0x12], Timeout::Never),
        ]
    );
}
