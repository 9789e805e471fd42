use logtail::cursor::ReadPlan;
use logtail::cursor::TailState;
use logtail::line::extract_lines;

fn lines_of(buf: &[u8]) -> Vec<Vec<u8>> {
    extract_lines(buf).0
}

fn consumed_of(buf: &[u8]) -> usize {
    extract_lines(buf).1
}

#[test]
fn empty_buffer_yields_nothing() {
    assert_eq!(lines_of(b""), Vec::<Vec<u8>>::new());
    assert_eq!(consumed_of(b""), 0);
}

#[test]
fn unterminated_buffer_is_held_back() {
    assert_eq!(lines_of(b"abc"), Vec::<Vec<u8>>::new());
    assert_eq!(consumed_of(b"abc"), 0);
}

#[test]
fn single_terminated_line() {
    assert_eq!(lines_of(b"abc\n"), vec![b"abc".to_vec()]);
    assert_eq!(consumed_of(b"abc\n"), 4);
}

#[test]
fn trailing_fragment_not_consumed() {
    assert_eq!(lines_of(b"a\nb\nxyz"), vec![b"a".to_vec(), b"b".to_vec()]);
    assert_eq!(consumed_of(b"a\nb\nxyz"), 4);
}

#[test]
fn carriage_return_is_stripped() {
    assert_eq!(lines_of(b"a\r\nb\n"), vec![b"a".to_vec(), b"b".to_vec()]);
    assert_eq!(consumed_of(b"a\r\nb\n"), 5);
}

#[test]
fn empty_lines_are_lines() {
    assert_eq!(lines_of(b"\n\n"), vec![b"".to_vec(), b"".to_vec()]);
    assert_eq!(consumed_of(b"\n\n"), 2);
}

#[test]
fn new_cursor_starts_at_given_size() {
    let state = TailState::new(41);
    assert_eq!(state.offset, 41);
}

#[test]
fn absent_file_waits_and_keeps_position() {
    let mut state = TailState::new(7);
    assert_eq!(state.plan_read(None), ReadPlan::Wait);
    assert_eq!(state.offset, 7);
}

#[test]
fn growth_is_read_from_cursor() {
    let mut state = TailState::new(3);
    assert_eq!(state.plan_read(Some(10)), ReadPlan::Read { start: 3, end: 10 });
    assert_eq!(state.offset, 3);
}

#[test]
fn unchanged_size_waits() {
    let mut state = TailState::new(3);
    assert_eq!(state.plan_read(Some(3)), ReadPlan::Wait);
    assert_eq!(state.offset, 3);
}

#[test]
fn truncation_resets_and_rereads_from_zero() {
    let mut state = TailState::new(10);
    assert_eq!(state.plan_read(Some(4)), ReadPlan::Read { start: 0, end: 4 });
    assert_eq!(state.offset, 0);
    let lines = state.consume(b"ab\ncd");
    assert_eq!(lines, vec![b"ab".to_vec()]);
    assert_eq!(state.offset, 3);
}

#[test]
fn truncation_to_empty_waits_at_zero() {
    let mut state = TailState::new(10);
    assert_eq!(state.plan_read(Some(0)), ReadPlan::Wait);
    assert_eq!(state.offset, 0);
}

#[test]
fn file_created_after_startup_is_read_from_its_beginning() {
    let mut state = TailState::new(0);
    assert_eq!(state.plan_read(None), ReadPlan::Wait);
    assert_eq!(state.plan_read(None), ReadPlan::Wait);
    assert_eq!(state.plan_read(Some(6)), ReadPlan::Read { start: 0, end: 6 });
    let lines = state.consume(b"hello\n");
    assert_eq!(lines, vec![b"hello".to_vec()]);
    assert_eq!(state.offset, 6);
}

#[test]
fn consume_advances_only_past_complete_lines() {
    let mut state = TailState::new(0);
    let lines = state.consume(b"one\ntwo\npart");
    assert_eq!(lines, vec![b"one".to_vec(), b"two".to_vec()]);
    assert_eq!(state.offset, 8);
}

#[test]
fn chunked_appends_lose_and_repeat_no_line() {
    // The file grows by arbitrary-sized appends; a trigger fires after each.
    let file: &[u8] = b"alpha\nbeta\ngamma\ndelta\n";
    let cuts: [usize; 7] = [0, 3, 5, 6, 14, 17, 23];
    let mut state = TailState::new(0);
    let mut emitted: Vec<Vec<u8>> = Vec::new();
    for w in 1..cuts.len() {
        let size = cuts[w] as u64;
        match state.plan_read(Some(size)) {
            ReadPlan::Wait => {}
            ReadPlan::Read { start, end } => {
                assert_eq!(start, state.offset);
                assert!(end <= size);
                let bytes = &file[start as usize..end as usize];
                emitted.extend(state.consume(bytes));
            }
        }
    }
    let expected = vec![
        b"alpha".to_vec(),
        b"beta".to_vec(),
        b"gamma".to_vec(),
        b"delta".to_vec(),
    ];
    assert_eq!(emitted, expected);
}
