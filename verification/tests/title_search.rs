use wincap::capture::{title_units, CaptureError, TitleSearch, MAX_TITLE_UNITS};

fn invalid_message(title: &str) -> &'static str {
    match title_units(title) {
        Err(CaptureError::InvalidInput(m)) => m,
        other => panic!("unexpected {other:?}"),
    }
}

#[test]
fn rejects_empty_nul_and_overlong_titles() {
    for title in [String::new(), "title\0suffix".into()] {
        assert_eq!(
            invalid_message(&title),
            "title must be nonempty and contain no NUL"
        );
    }
    assert_eq!(invalid_message(&"a".repeat(32768)), "window title is too long");
    assert_eq!(title_units(&"a".repeat(32767)).unwrap().len(), MAX_TITLE_UNITS);
    assert_eq!(invalid_message(&"😀".repeat(16384)), "window title is too long");
}

#[test]
fn titles_are_encoded_as_utf16() {
    let title = "wincap test Місто 城 😀 ";
    let expected: Vec<u16> = title.encode_utf16().collect();
    assert_eq!(title_units(title).unwrap(), expected);
    assert_eq!(title_units("😀").unwrap(), vec![0xD83D, 0xDE00]);
    assert_eq!(title_units("A").unwrap(), vec![0x41]);
}

fn read(search: &mut TitleSearch, window: usize, text: &str) -> bool {
    let units: Vec<u16> = text.encode_utf16().collect();
    let copied = units.len().min(search.buffer.len() - 1);
    for b in search.buffer.iter_mut() {
        *b = 0;
    }
    search.buffer[..copied].copy_from_slice(&units[..copied]);
    search.observe(window, copied as i32, 0)
}

#[test]
fn search_finds_the_single_exact_match() {
    let mut search = TitleSearch::new(title_units("Editor").unwrap());
    assert_eq!(search.buffer.len(), 8);
    assert!(read(&mut search, 1, "Editor - file"));
    assert!(read(&mut search, 2, "editor"));
    assert!(read(&mut search, 3, "Editor "));
    assert!(read(&mut search, 4, "Editor"));
    assert!(read(&mut search, 5, "Edit"));
    assert_eq!(search.count, 1);
    assert!(matches!(search.outcome(), Ok(4)));
}

#[test]
fn search_reports_missing_and_duplicate_titles_distinctly() {
    let mut search = TitleSearch::new(title_units("Editor").unwrap());
    assert!(read(&mut search, 1, "Viewer"));
    assert!(matches!(search.outcome(), Err(CaptureError::WindowNotFound)));
    assert!(read(&mut search, 7, "Editor"));
    assert!(read(&mut search, 9, "Editor"));
    assert_eq!(search.first, Some(7));
    assert!(matches!(
        search.outcome(),
        Err(CaptureError::AmbiguousWindowTitle(2))
    ));
}

#[test]
fn search_stops_on_a_failed_read_but_skips_vanished_windows() {
    let mut search = TitleSearch::new(title_units("Editor").unwrap());
    assert!(search.observe(1, 0, 0));
    assert!(search.observe(2, 0, 1400));
    assert_eq!(search.failure, None);
    assert!(!search.observe(3, 0, 5));
    assert_eq!(search.failure, Some(5));
    assert_eq!(search.count, 0);
}
