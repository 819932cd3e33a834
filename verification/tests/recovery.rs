use bootloader::recovery::{recovery_mode, recv_u32, Action, Event, Message, Phase, Recovery};
use bootloader::types::{BootError, APP_BASE, MAX_IMAGE_SIZE};

fn ok() -> Event {
    Event::Completed(Ok(()))
}

/// Starts recovery mode and completes the banner: the machine then waits
/// for the first size byte.
fn started() -> Recovery {
    let (mut st, a) = Recovery::start();
    assert_eq!(a, Action::Send(Message::Banner));
    assert_eq!(recovery_mode(&mut st, ok()), Action::Receive);
    assert_eq!(st.phase(), Phase::Size);
    st
}

fn send_size(st: &mut Recovery, size: u32) -> Action {
    let b = size.to_be_bytes();
    for i in 0..3 {
        assert_eq!(recovery_mode(st, Event::Byte(b[i])), Action::Receive);
    }
    recovery_mode(st, Event::Byte(b[3]))
}

#[test]
fn recv_u32_big_endian() {
    assert_eq!(recv_u32(&[0x12, 0x34, 0x56, 0x78]), 0x1234_5678);
    assert_eq!(recv_u32(&[0, 0, 1, 44]), 300);
    assert_eq!(recv_u32(&[0xFF, 0xFF, 0xFF, 0xFF]), u32::MAX);
}

#[test]
fn recovery_refuses_zero_size() {
    let mut st = started();
    assert_eq!(send_size(&mut st, 0), Action::Send(Message::InvalidSize));
    assert_eq!(recovery_mode(&mut st, ok()), Action::Receive);
    assert_eq!(st.phase(), Phase::Size);
}

#[test]
fn recovery_refuses_oversized_image() {
    let mut st = started();
    assert_eq!(send_size(&mut st, MAX_IMAGE_SIZE + 1), Action::Send(Message::InvalidSize));
    assert_eq!(recovery_mode(&mut st, ok()), Action::Receive);
    assert_eq!(send_size(&mut st, u32::MAX), Action::Send(Message::InvalidSize));
}

#[test]
fn recovery_accepts_largest_size() {
    let mut st = started();
    assert_eq!(send_size(&mut st, MAX_IMAGE_SIZE), Action::Erase { first: 2, last: 7 });
    assert_eq!(st.phase(), Phase::Erase { size: MAX_IMAGE_SIZE });
}

#[test]
fn recovery_flashes_image_in_chunks() {
    let image: Vec<u8> = (0..300u32).map(|i| (i * 7 + 3) as u8).collect();
    let mut st = started();
    assert_eq!(send_size(&mut st, 300), Action::Erase { first: 2, last: 2 });
    assert_eq!(recovery_mode(&mut st, ok()), Action::Receive);
    let mut writes: Vec<(u32, Vec<u8>)> = Vec::new();
    for (i, &b) in image.iter().enumerate() {
        match recovery_mode(&mut st, Event::Byte(b)) {
            Action::Receive => {}
            Action::Write { addr, data } => {
                writes.push((addr, data));
                let next = recovery_mode(&mut st, ok());
                if i + 1 == image.len() {
                    assert_eq!(next, Action::Send(Message::ImageWritten));
                } else {
                    assert_eq!(next, Action::Receive);
                }
            }
            other => panic!("unexpected action {:?}", other),
        }
    }
    assert_eq!(writes.len(), 2);
    assert_eq!(writes[0].0, APP_BASE);
    assert_eq!(writes[0].1, image[..256].to_vec());
    assert_eq!(writes[1].0, APP_BASE + 256);
    assert_eq!(writes[1].1, image[256..].to_vec());
    assert_eq!(recovery_mode(&mut st, ok()), Action::Receive);
    assert_eq!(st.phase(), Phase::Size);
}

#[test]
fn recovery_single_byte_image() {
    let mut st = started();
    assert_eq!(send_size(&mut st, 1), Action::Erase { first: 2, last: 2 });
    assert_eq!(recovery_mode(&mut st, ok()), Action::Receive);
    assert_eq!(
        recovery_mode(&mut st, Event::Byte(0xAB)),
        Action::Write { addr: APP_BASE, data: vec![0xAB] }
    );
    assert_eq!(recovery_mode(&mut st, ok()), Action::Send(Message::ImageWritten));
}

#[test]
fn recovery_exact_chunk_image() {
    let mut st = started();
    assert_eq!(send_size(&mut st, 512), Action::Erase { first: 2, last: 2 });
    assert_eq!(recovery_mode(&mut st, ok()), Action::Receive);
    let mut n_writes = 0;
    for i in 0..512u32 {
        match recovery_mode(&mut st, Event::Byte(i as u8)) {
            Action::Receive => assert!((i + 1) % 256 != 0),
            Action::Write { addr, data } => {
                assert_eq!(addr, APP_BASE + (i + 1) - 256);
                assert_eq!(data.len(), 256);
                n_writes += 1;
                let next = recovery_mode(&mut st, ok());
                if i == 511 {
                    assert_eq!(next, Action::Send(Message::ImageWritten));
                } else {
                    assert_eq!(next, Action::Receive);
                }
            }
            other => panic!("unexpected action {:?}", other),
        }
    }
    assert_eq!(n_writes, 2);
}

#[test]
fn recovery_reports_erase_error() {
    let mut st = started();
    assert_eq!(send_size(&mut st, 10), Action::Erase { first: 2, last: 2 });
    assert_eq!(
        recovery_mode(&mut st, Event::Completed(Err(BootError::FlashError))),
        Action::Send(Message::EraseError)
    );
    assert_eq!(recovery_mode(&mut st, ok()), Action::Receive);
    assert_eq!(st.phase(), Phase::Size);
}

#[test]
fn recovery_reports_flash_error_and_restarts() {
    let mut st = started();
    assert_eq!(send_size(&mut st, 2), Action::Erase { first: 2, last: 2 });
    assert_eq!(recovery_mode(&mut st, ok()), Action::Receive);
    assert_eq!(recovery_mode(&mut st, Event::Byte(1)), Action::Receive);
    assert_eq!(
        recovery_mode(&mut st, Event::Byte(2)),
        Action::Write { addr: APP_BASE, data: vec![1, 2] }
    );
    assert_eq!(
        recovery_mode(&mut st, Event::Completed(Err(BootError::FlashError))),
        Action::Send(Message::FlashError)
    );
    assert_eq!(recovery_mode(&mut st, ok()), Action::Receive);
    assert_eq!(st.phase(), Phase::Size);
    // The next bytes are read as a new size.
    assert_eq!(send_size(&mut st, 0), Action::Send(Message::InvalidSize));
}

#[test]
fn recovery_accepts_checks_event_kind() {
    let mut st = started();
    assert!(st.accepts(&Event::Byte(0)));
    assert!(!st.accepts(&ok()));
    assert_eq!(send_size(&mut st, 5), Action::Erase { first: 2, last: 2 });
    assert!(st.accepts(&ok()));
    assert!(!st.accepts(&Event::Byte(0)));
}

#[test]
fn recovery_erases_every_sector_of_the_image() {
    // The image fills sector 2 exactly.
    let mut st = started();
    assert_eq!(send_size(&mut st, 0x4000), Action::Erase { first: 2, last: 2 });
    // One byte more reaches sector 3.
    let mut st = started();
    assert_eq!(send_size(&mut st, 0x4001), Action::Erase { first: 2, last: 3 });
    // 64 KiB from 0x0800_8000 ends at 0x0801_7FFF, in sector 4.
    let mut st = started();
    assert_eq!(send_size(&mut st, 0x1_0000), Action::Erase { first: 2, last: 4 });
    // Up to 0x0803_FFFF: sector 5.
    let mut st = started();
    assert_eq!(send_size(&mut st, 0x4_0000 - 0x8000), Action::Erase { first: 2, last: 5 });
    let mut st = started();
    assert_eq!(send_size(&mut st, 0x4_0000 - 0x8000 + 1), Action::Erase { first: 2, last: 6 });
}
