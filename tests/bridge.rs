use crossterm::{DataPath, DecodeError, Decoded, Event, Inbox, InternalEvent, KeyEvent, Pulled};

/// A small decoder for the tests: ASCII keys, two- and three-byte UTF-8 keys,
/// and `ESC [ A..D` as arrow keys (reported as the letter with modifier bit 0x80).
fn test_decode(b: &[u8], more: bool) -> Decoded {
    let key = |c: char, m: u8| Decoded::Complete(InternalEvent::Event(Event::Key(KeyEvent { code: c, modifiers: m })));
    let first = b[0];
    if first == 0x1b {
        if b.len() == 1 {
            return if more { Decoded::Incomplete } else { key('\u{1b}', 0) };
        }
        if b[1] != b'[' {
            return Decoded::Malformed;
        }
        if b.len() < 3 {
            return Decoded::Incomplete;
        }
        return match b[2] {
            b'A'..=b'D' => key(b[2] as char, 0x80),
            _ => Decoded::Malformed,
        };
    }
    let need = if first < 0x80 {
        1
    } else if first & 0xe0 == 0xc0 {
        2
    } else if first & 0xf0 == 0xe0 {
        3
    } else {
        return Decoded::Malformed;
    };
    if b.len() < need {
        return Decoded::Incomplete;
    }
    match std::str::from_utf8(b) {
        Ok(s) => key(s.chars().next().unwrap(), 0),
        Err(_) => Decoded::Malformed,
    }
}

/// Decoder that ignores the `more` flag (no lone-escape case).
fn plain_decode(b: &[u8], _more: bool) -> Decoded {
    test_decode(b, true)
}

fn key(c: char) -> Event {
    Event::Key(KeyEvent { code: c, modifiers: 0 })
}

fn drain_all(inbox: &mut Inbox<u32>) -> Vec<Result<Event, DecodeError>> {
    let mut out = Vec::new();
    while let Pulled::Ready(x) = inbox.poll_next(0) {
        out.push(x);
    }
    out
}

fn decode_in_chunks(bytes: &[u8], cuts: &[usize]) -> (Vec<Result<Event, DecodeError>>, usize) {
    let mut inbox: Inbox<u32> = Inbox::new();
    let mut data = DataPath::new();
    let mut start = 0;
    for &cut in cuts.iter().chain(std::iter::once(&bytes.len())) {
        data.feed(&bytes[start..cut], &plain_decode, &mut inbox);
        start = cut;
    }
    (drain_all(&mut inbox), data.pending_len())
}

#[test]
fn split_chunks_decode_like_whole_chunk() {
    let bytes: Vec<u8> = vec![b'a', 0xc3, 0xa9, 0xe2, 0x28, 0xa1, 0x1b, b'[', b'B', 0xe2, 0x82, 0xac, b'z', 0xc3];
    let whole = decode_in_chunks(&bytes, &[]);
    assert_eq!(
        whole.0,
        vec![
            Ok(key('a')),
            Ok(key('\u{e9}')),
            Err(DecodeError { discarded: 3 }),
            Ok(Event::Key(KeyEvent { code: 'B', modifiers: 0x80 })),
            Ok(key('\u{20ac}')),
            Ok(key('z')),
        ]
    );
    assert_eq!(whole.1, 1);
    let splits: Vec<Vec<usize>> = vec![
        vec![1],
        vec![2],
        vec![1, 2, 3, 4, 5, 6, 7, 8, 9, 10, 11, 12, 13],
        vec![4, 5, 10],
        vec![7, 8],
        vec![0, 0, 14],
    ];
    for cuts in splits {
        assert_eq!(decode_in_chunks(&bytes, &cuts), whole, "cuts {:?}", cuts);
    }
}

#[test]
fn pull_on_empty_queue_stays_pending() {
    let mut inbox: Inbox<u32> = Inbox::new();
    assert_eq!(inbox.poll_next(1), Pulled::Pending);
    assert_eq!(inbox.poll_next(1), Pulled::Pending);
    assert!(inbox.is_empty());
    assert_eq!(inbox.waiter(), Some(&1));
}

#[test]
fn cursor_positions_are_never_pulled() {
    let mut inbox: Inbox<u32> = Inbox::new();
    inbox.push(Ok(InternalEvent::CursorPosition(1, 2)));
    inbox.push(Ok(InternalEvent::Event(key('x'))));
    inbox.push(Ok(InternalEvent::CursorPosition(3, 4)));
    inbox.push(Ok(InternalEvent::CursorPosition(5, 6)));
    inbox.push(Err(DecodeError { discarded: 2 }));
    inbox.push(Ok(InternalEvent::Event(Event::FocusLost)));
    inbox.push(Ok(InternalEvent::CursorPosition(7, 8)));
    assert_eq!(inbox.len(), 7);
    assert_eq!(inbox.poll_next(0), Pulled::Ready(Ok(key('x'))));
    assert_eq!(inbox.poll_next(0), Pulled::Ready(Err(DecodeError { discarded: 2 })));
    assert_eq!(inbox.poll_next(0), Pulled::Ready(Ok(Event::FocusLost)));
    assert_eq!(inbox.poll_next(0), Pulled::Pending);
    assert!(inbox.is_empty());
}

#[test]
fn resize_and_data_events_keep_arrival_order() {
    let mut inbox: Inbox<u32> = Inbox::new();
    let mut data = DataPath::new();
    inbox.push_resize(80, 24);
    data.feed(b"a", &test_decode, &mut inbox);
    inbox.push_resize(100, 30);
    assert_eq!(inbox.poll_next(0), Pulled::Ready(Ok(Event::Resize(80, 24))));
    assert_eq!(inbox.poll_next(0), Pulled::Ready(Ok(key('a'))));
    assert_eq!(inbox.poll_next(0), Pulled::Ready(Ok(Event::Resize(100, 30))));
    assert_eq!(inbox.poll_next(0), Pulled::Pending);
}

#[test]
fn released_bridge_queues_nothing_new() {
    let mut inbox: Inbox<u32> = Inbox::new();
    let mut data = DataPath::new();
    inbox.register(9);
    assert!(inbox.push_resize(10, 20));
    assert!(data.feed(b"q", &test_decode, &mut inbox));
    inbox.release();
    assert!(inbox.is_released());
    assert!(!inbox.push_resize(30, 40));
    assert!(!data.feed(b"rs", &test_decode, &mut inbox));
    assert!(!inbox.push(Ok(InternalEvent::Event(Event::FocusGained))));
    assert_eq!(inbox.len(), 2);
    assert_eq!(data.pending_len(), 0);
    assert_eq!(inbox.poll_next(0), Pulled::Ready(Ok(Event::Resize(10, 20))));
    assert_eq!(inbox.poll_next(0), Pulled::Ready(Ok(key('q'))));
    assert_eq!(inbox.poll_next(0), Pulled::Pending);
}

#[test]
fn key_split_across_two_chunks_wakes_once() {
    let mut inbox: Inbox<u32> = Inbox::new();
    let mut data = DataPath::new();
    assert_eq!(inbox.poll_next(5), Pulled::Pending);
    let mut wakes = 0;
    if data.feed(&[0xc3], &test_decode, &mut inbox) {
        wakes += 1;
    }
    assert_eq!(inbox.len(), 0);
    assert_eq!(data.pending_len(), 1);
    assert_eq!(wakes, 0);
    if data.feed(&[0xa9], &test_decode, &mut inbox) {
        wakes += 1;
    }
    assert_eq!(inbox.len(), 1);
    assert_eq!(data.pending_len(), 0);
    assert_eq!(wakes, 1);
    assert_eq!(inbox.poll_next(5), Pulled::Ready(Ok(key('\u{e9}'))));
}

#[test]
fn malformed_sequence_then_key() {
    let mut inbox: Inbox<u32> = Inbox::new();
    let mut data = DataPath::new();
    data.feed(&[0xe2, 0x28, 0xa1, b'k'], &test_decode, &mut inbox);
    assert_eq!(inbox.poll_next(0), Pulled::Ready(Err(DecodeError { discarded: 3 })));
    assert_eq!(inbox.poll_next(0), Pulled::Ready(Ok(key('k'))));
    assert_eq!(inbox.poll_next(0), Pulled::Pending);
}

#[test]
fn malformed_escape_sequence_is_reported_once() {
    let mut inbox: Inbox<u32> = Inbox::new();
    let mut data = DataPath::new();
    data.feed(&[0x1b, b'[', b'Z', 0x1b, b'[', b'A'], &test_decode, &mut inbox);
    assert_eq!(inbox.poll_next(0), Pulled::Ready(Err(DecodeError { discarded: 3 })));
    assert_eq!(inbox.poll_next(0), Pulled::Ready(Ok(Event::Key(KeyEvent { code: 'A', modifiers: 0x80 }))));
    assert_eq!(inbox.poll_next(0), Pulled::Pending);
}

#[test]
fn lone_escape_depends_on_chunk_end() {
    let mut inbox: Inbox<u32> = Inbox::new();
    let mut data = DataPath::new();
    data.feed(&[0x1b], &test_decode, &mut inbox);
    assert_eq!(inbox.poll_next(0), Pulled::Ready(Ok(key('\u{1b}'))));
    data.feed(&[0x1b, b'[', b'C'], &test_decode, &mut inbox);
    assert_eq!(inbox.poll_next(0), Pulled::Ready(Ok(Event::Key(KeyEvent { code: 'C', modifiers: 0x80 }))));
    assert_eq!(data.pending_len(), 0);
}

#[test]
fn several_events_in_one_chunk_wake_once() {
    let mut inbox: Inbox<u32> = Inbox::new();
    let mut data = DataPath::new();
    assert!(!data.feed(b"abc", &test_decode, &mut inbox));
    assert_eq!(inbox.len(), 3);
    inbox.register(4);
    assert!(data.feed(b"def", &test_decode, &mut inbox));
    assert_eq!(inbox.len(), 6);
    assert!(!data.feed(b"", &test_decode, &mut inbox));
    assert_eq!(inbox.len(), 6);
}

#[test]
fn first_registered_task_is_kept() {
    let mut inbox: Inbox<u32> = Inbox::new();
    assert_eq!(inbox.waiter(), None);
    assert_eq!(inbox.poll_next(1), Pulled::Pending);
    assert_eq!(inbox.poll_next(2), Pulled::Pending);
    inbox.register(3);
    assert_eq!(inbox.waiter(), Some(&1));
    assert!(inbox.push_resize(1, 1));
}
