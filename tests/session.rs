use rust_echo_server::session::{Action, CloseReason, Phase, ReadOutcome, Session};

fn data(s: &str) -> ReadOutcome {
    ReadOutcome::Data(s.as_bytes().to_vec())
}

fn write(s: &str) -> Action {
    Action::Write(s.as_bytes().to_vec())
}

#[test]
fn new_session_reads_first() {
    let s = Session::new();
    assert!(s.is_reading());
    assert_eq!(s.phase(), Phase::Reading);
}

#[test]
fn a_line_is_echoed_exactly() {
    let mut s = Session::new();
    assert_eq!(s.on_read(data("hello world\n")), write("hello world\n"));
    assert!(s.is_writing());
    assert_eq!(s.on_write(true), Action::Read);
    assert!(s.is_reading());
}

#[test]
fn empty_line_is_echoed() {
    let mut s = Session::new();
    assert_eq!(s.on_read(data("\n")), write("\n"));
    assert_eq!(s.on_write(true), Action::Read);
}

#[test]
fn lines_come_back_in_order() {
    let mut s = Session::new();
    assert_eq!(s.on_read(data("one\n")), write("one\n"));
    assert_eq!(s.on_write(true), Action::Read);
    assert_eq!(s.on_read(data("two\n")), write("two\n"));
    assert_eq!(s.on_write(true), Action::Read);
    assert_eq!(s.on_read(data("three\n")), write("three\n"));
    assert_eq!(s.on_write(true), Action::Read);
}

#[test]
fn several_lines_in_one_read_are_echoed_one_by_one() {
    let mut s = Session::new();
    assert_eq!(s.on_read(data("a\nbb\n\nccc\n")), write("a\n"));
    assert_eq!(s.phase(), Phase::Echoing);
    assert_eq!(s.on_write(true), write("bb\n"));
    assert_eq!(s.on_write(true), write("\n"));
    assert_eq!(s.on_write(true), write("ccc\n"));
    assert_eq!(s.on_write(true), Action::Read);
    assert!(s.is_reading());
}

#[test]
fn lines_waiting_behind_a_line_keep_their_partial_tail() {
    let mut s = Session::new();
    assert_eq!(s.on_read(data("x\ny\nzz")), write("x\n"));
    assert_eq!(s.on_write(true), write("y\n"));
    assert_eq!(s.on_write(true), Action::Read);
    assert_eq!(s.on_read(data("z\n")), write("zzz\n"));
}

#[test]
fn write_error_drops_waiting_lines() {
    let mut s = Session::new();
    assert_eq!(s.on_read(data("one\ntwo\n")), write("one\n"));
    assert_eq!(s.on_write(false), Action::Close(CloseReason::WriteFailed));
    assert!(s.is_closed());
}

#[test]
fn a_line_split_across_reads_waits_for_its_terminator() {
    let mut s = Session::new();
    assert_eq!(s.on_read(data("ab")), Action::Read);
    assert!(s.is_reading());
    assert_eq!(s.on_read(data("c")), Action::Read);
    assert_eq!(s.on_read(data("d\nef")), write("abcd\n"));
    assert_eq!(s.on_write(true), Action::Read);
    assert_eq!(s.on_read(data("g\n")), write("efg\n"));
}

#[test]
fn carriage_return_is_kept() {
    let mut s = Session::new();
    assert_eq!(s.on_read(data("dos\r\n")), write("dos\r\n"));
}

#[test]
fn non_text_bytes_are_echoed_unchanged() {
    let mut s = Session::new();
    let line = vec![0u8, 0xff, 0x80, 7, b'\n'];
    assert_eq!(s.on_read(ReadOutcome::Data(line.clone())), Action::Write(line));
}

#[test]
fn end_of_stream_closes_without_error() {
    let mut s = Session::new();
    assert_eq!(s.on_read(ReadOutcome::EndOfStream), Action::Close(CloseReason::EndOfStream));
    assert!(s.is_closed());
}

#[test]
fn end_of_stream_after_complete_lines_closes() {
    let mut s = Session::new();
    assert_eq!(s.on_read(data("x\n")), write("x\n"));
    assert_eq!(s.on_write(true), Action::Read);
    assert_eq!(s.on_read(ReadOutcome::EndOfStream), Action::Close(CloseReason::EndOfStream));
    assert!(s.is_closed());
}

#[test]
fn unterminated_last_line_is_echoed_before_closing() {
    let mut s = Session::new();
    assert_eq!(s.on_read(data("tail")), Action::Read);
    assert_eq!(s.on_read(ReadOutcome::EndOfStream), write("tail\n"));
    assert_eq!(s.phase(), Phase::Finishing);
    assert_eq!(s.on_write(true), Action::Close(CloseReason::EndOfStream));
    assert!(s.is_closed());
}

#[test]
fn read_error_closes() {
    let mut s = Session::new();
    assert_eq!(s.on_read(data("partial")), Action::Read);
    assert_eq!(s.on_read(ReadOutcome::Failed), Action::Close(CloseReason::ReadFailed));
    assert!(s.is_closed());
}

#[test]
fn write_error_closes() {
    let mut s = Session::new();
    assert_eq!(s.on_read(data("lost\n")), write("lost\n"));
    assert_eq!(s.on_write(false), Action::Close(CloseReason::WriteFailed));
    assert!(s.is_closed());
}

#[test]
fn two_connections_do_not_mix() {
    let mut a = Session::new();
    let mut b = Session::new();
    assert_eq!(a.on_read(data("from ")), Action::Read);
    assert_eq!(b.on_read(data("other ")), Action::Read);
    assert_eq!(a.on_read(data("a\n")), write("from a\n"));
    assert_eq!(b.on_read(data("b\n")), write("other b\n"));
    assert_eq!(a.on_write(true), Action::Read);
    assert_eq!(b.on_write(true), Action::Read);
}
