use rustyvim::app_server::{AppServer, DrawInfo, Event, Key, ScreenSize, Step};
use rustyvim::error::Error;
use rustyvim::marks::Mark;
use rustyvim::window::{WindowId, WindowOffset};

#[test]
fn kill_stops_at_once() {
    let mut server = AppServer::new(ScreenSize { rows: 10, cols: 10 }, 0);
    assert_eq!(
        server.handle_event(&Event::KeyPress(Key::Char('a')), 5),
        Step::Continue { publish: false }
    );
    assert_eq!(server.handle_event(&Event::Kill, 1000), Step::Stop);
}

#[test]
fn snapshots_are_throttled() {
    let mut server = AppServer::new(ScreenSize { rows: 10, cols: 10 }, 0);
    assert_eq!(
        server.handle_event(&Event::KeyPress(Key::Enter), 100),
        Step::Continue { publish: true }
    );
    assert_eq!(
        server.handle_event(&Event::KeyPress(Key::Enter), 129),
        Step::Continue { publish: false }
    );
    assert_eq!(
        server.handle_event(&Event::KeyPress(Key::Enter), 130),
        Step::Continue { publish: true }
    );
    assert_eq!(
        server.handle_event(&Event::ResizeUI(ScreenSize { rows: 0, cols: 0 }), 140),
        Step::Continue { publish: false }
    );
    assert_eq!(server.make_draw_info(), Err(Error::ViewportUnknown));
}

#[test]
fn draw_info_clips_to_the_screen() {
    let mut server = AppServer::new(ScreenSize { rows: 3, cols: 4 }, 0);
    let buf = server.cur_buffer_mut().unwrap();
    buf.insert(Mark::new(0, 0), "first line\nsecond\nthird").unwrap();
    buf.set_mark(0, Mark::new(1, 5));
    assert_eq!(server.cur_window().id(), WindowId(0));
    assert_eq!(
        server.make_draw_info(),
        Ok(DrawInfo {
            lines: vec!["tab0".to_string(), "firs".to_string(), "seco".to_string()],
            cpos: (1, 5),
        })
    );
}

#[test]
fn draw_info_follows_the_window_offset() {
    let mut server = AppServer::new(ScreenSize { rows: 5, cols: 3 }, 0);
    let buf = server.cur_buffer_mut().unwrap();
    buf.insert(Mark::new(0, 0), "abcdef\nxy\nlast").unwrap();
    buf.set_mark(0, Mark::new(2, 3));
    server.set_window_offset(WindowOffset { row: 1, col: 1 });
    assert_eq!(
        *server.cur_window().window_offset(),
        WindowOffset { row: 1, col: 1 }
    );
    let info = server.make_draw_info().unwrap();
    assert_eq!(info.lines, vec!["tab0", "xy", "las"]);
    assert_eq!(info.cpos, (1, 2));

    server.set_window_offset(WindowOffset { row: 3, col: 0 });
    let info = server.make_draw_info().unwrap();
    assert_eq!(info.lines, vec!["tab0"]);
    assert_eq!(info.cpos, (0, 3));
}

#[test]
fn first_snapshot_waits_for_the_interval() {
    let mut server = AppServer::new(ScreenSize { rows: 4, cols: 8 }, 1000);
    assert_eq!(
        server.handle_event(&Event::KeyPress(Key::Up), 1005),
        Step::Continue { publish: false }
    );
    assert_eq!(
        server.handle_event(&Event::KeyPress(Key::Up), 1030),
        Step::Continue { publish: true }
    );
    assert_eq!(
        server.handle_event(&Event::KeyPress(Key::Up), 1059),
        Step::Continue { publish: false }
    );
}
