use roxide::progress::{ProgressEvent, ProgressReader, ProgressWriter};

#[test]
fn progress_redraws_at_intervals_and_finishes_once() {
    let mut reader = ProgressReader::new("Reading".to_string(), "Read".to_string(), 1000);
    assert_eq!(reader.wrapper.update_current(100, 50), ProgressEvent::Nothing);
    assert_eq!(reader.wrapper.update_current(100, 200), ProgressEvent::Redraw);
    assert_eq!(reader.wrapper.current, 200);
    assert!(reader.wrapper.failed());
    assert_eq!(reader.wrapper.update_current(900, 0), ProgressEvent::Done);
    assert_eq!(reader.wrapper.current, 1000);
    assert!(!reader.wrapper.failed());
    assert_eq!(reader.wrapper.update_current(10, 1000), ProgressEvent::Nothing);
    assert_eq!(reader.wrapper.current, 1000);
}

#[test]
fn empty_transfer_is_done_at_once() {
    let mut writer = ProgressWriter::new("Writing".to_string(), "Write".to_string(), 0);
    assert!(!writer.wrapper.failed());
    assert_eq!(writer.wrapper.update_current(0, 0), ProgressEvent::Done);
}
