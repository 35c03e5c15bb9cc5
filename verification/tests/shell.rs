use pagepal::app::App;
use pagepal::common::{Settings, Store};
use pagepal::picture::Picture;

fn pic(name: &str, w: u32, h: u32) -> Picture {
    Picture::new(format!("file:///shots/{}", name), w, h, 1)
}

#[test]
fn fresh_app() {
    let a = App::new();
    assert_eq!(a.title, "Reader");
    assert_eq!(a.current, 0);
    assert!(a.panes.is_empty());
    assert_eq!((a.width, a.height), (1, 1));
}

#[test]
fn add_folder_creates_the_active_pane_once() {
    let mut a = App::new();
    assert!(a.add_folder("file:///shots"));
    assert_eq!(a.panes.len(), 1);
    assert_eq!(a.panes[0].id, 0);
    assert_eq!(a.panes[0].folders.len(), 1);
    assert_eq!(a.panes[0].folders[0].scheme(), "file");
    // a second call leaves the existing pane alone
    assert!(a.add_folder("file:///elsewhere"));
    assert_eq!(a.panes.len(), 1);
    assert_eq!(a.panes[0].folders[0].path(), "/shots");
    // a bad location adds nothing
    let mut b = App::new();
    assert!(!b.add_folder("no scheme here"));
    assert!(b.panes.is_empty());
}

#[test]
fn commands_reach_the_active_pane() {
    let mut a = App::new();
    a.add_folder("file:///shots");
    for i in 0..6 {
        a.panes[0].folders[0].add_pic(pic(&format!("{}.png", i), 10, 10));
    }
    a.next_page();
    assert_eq!(a.panes[0].folders[0].index, 1);
    a.prev_page();
    a.prev_page();
    assert_eq!(a.panes[0].folders[0].index, 0);
    a.more();
    assert_eq!(a.panes[0].folders[0].batch, 3);
    a.less();
    assert_eq!(a.panes[0].folders[0].batch, 1);
    a.toggle_direction();
    assert!(!a.panes[0].folders[0].direction);
}

#[test]
fn commands_without_a_pane_are_no_ops() {
    let mut a = App::new();
    a.next_page();
    a.prev_page();
    a.more();
    a.less();
    a.toggle_direction();
    assert!(a.panes.is_empty());
}

#[test]
fn resize_records_the_viewport() {
    let mut a = App::new();
    a.resize(1920, 1080);
    assert_eq!((a.width, a.height), (1920, 1080));
}

#[test]
fn stock_settings() {
    let s = Settings::default();
    assert!(!s.fullscreen && !s.vsync && !s.capture);
    assert!(s.esc_exit && s.transparent);
    assert_eq!((s.ups, s.fps, s.samples), (30, 60, 16));
    assert_eq!(Settings::name(), "Settings");
}
