use strompy::chan::channel;
use strompy::error::Error;

#[test]
fn fresh_channel_is_open_and_empty() {
    let c = channel();
    assert!(!c.is_closed());
    assert_eq!(c.len(), 0);
}

#[test]
fn bytes_come_out_in_write_order() {
    let mut c = channel();
    assert_eq!(c.write(&[1, 2, 3]), Ok(false));
    assert_eq!(c.write(&[4, 5]), Ok(false));
    assert_eq!(c.len(), 5);
    assert_eq!(c.read(2), Ok(Some(vec![1, 2])));
    assert_eq!(c.read(10), Ok(Some(vec![3, 4, 5])));
    assert_eq!(c.len(), 0);
}

#[test]
fn reads_and_writes_interleave_without_gaps() {
    let mut c = channel();
    let mut seen = Vec::new();
    c.write(&[10, 11]).unwrap();
    seen.extend(c.read(1).unwrap().unwrap());
    c.write(&[12]).unwrap();
    seen.extend(c.read(8).unwrap().unwrap());
    c.write(&[]).unwrap();
    c.write(&[13, 14, 15]).unwrap();
    seen.extend(c.read(2).unwrap().unwrap());
    seen.extend(c.read(2).unwrap().unwrap());
    assert_eq!(seen, vec![10, 11, 12, 13, 14, 15]);
}

#[test]
fn chunking_of_writes_does_not_show() {
    let bytes: Vec<u8> = (0..50).collect();
    let mut whole = channel();
    whole.write(&bytes).unwrap();
    let mut split = channel();
    for chunk in bytes.chunks(7) {
        split.write(chunk).unwrap();
    }
    assert_eq!(whole.len(), split.len());
    assert_eq!(whole.read(50), split.read(50));
}

#[test]
fn reading_nothing_from_waiting_bytes_takes_nothing() {
    let mut c = channel();
    c.write(&[9]).unwrap();
    assert_eq!(c.read(0), Ok(Some(vec![])));
    assert_eq!(c.len(), 1);
}

#[test]
fn empty_open_channel_parks_the_reader_and_a_write_wakes_it() {
    let mut c = channel();
    assert_eq!(c.read(4), Ok(None));
    // The reader is parked: the write reports that it must be woken.
    assert_eq!(c.write(&[1]), Ok(true));
    // Once woken it is not woken again.
    assert_eq!(c.write(&[2]), Ok(false));
    assert_eq!(c.read(4), Ok(Some(vec![1, 2])));
}

#[test]
fn close_wakes_a_parked_reader_and_is_idempotent() {
    let mut c = channel();
    assert_eq!(c.read(1), Ok(None));
    assert!(c.close());
    assert!(c.is_closed());
    assert!(!c.close());
    assert!(c.is_closed());
}

#[test]
fn write_after_close_is_refused() {
    let mut c = channel();
    c.write(&[1]).unwrap();
    c.close();
    assert_eq!(c.write(&[2]), Err(Error::ChannelClosed));
    assert_eq!(c.len(), 1);
}

#[test]
fn closed_channel_is_drained_before_the_pipe_breaks() {
    let mut c = channel();
    c.write(&[1, 2, 3]).unwrap();
    c.close();
    assert_eq!(c.read(2), Ok(Some(vec![1, 2])));
    assert_eq!(c.read(2), Ok(Some(vec![3])));
    assert_eq!(c.read(2), Err(Error::BrokenPipe));
    assert_eq!(c.read(2), Err(Error::BrokenPipe));
}

#[test]
fn errors_describe_themselves() {
    assert_eq!(Error::ChannelClosed.describe(), "channel closed");
    assert_eq!(Error::BrokenPipe.describe(), "broken pipe");
    assert_eq!(Error::ProtocolError.describe(), "protocol error");
    assert_eq!(Error::CapacityExceeded.describe(), "capacity exceeded");
    assert_eq!(Error::UnknownOperation.describe(), "unknown operation");
    assert_eq!(Error::ShapeMismatch.describe(), "shape mismatch");
}
