use media_browser::thumbnail::{frame_file, is_video_extension, LoadStep, ThumbnailCache};

fn s(x: &str) -> String {
    x.to_string()
}

#[test]
fn first_request_starts_a_load_once() {
    let mut c: ThumbnailCache<u32> = ThumbnailCache::new();
    assert_eq!(c.step(&s("/a.png")), LoadStep::Start);
    assert_eq!(c.step(&s("/a.png")), LoadStep::Pending);
    assert_eq!(c.lookup(&s("/a.png")), None);
}

#[test]
fn received_image_is_served() {
    let mut c: ThumbnailCache<u32> = ThumbnailCache::new();
    c.step(&s("/a.png"));
    c.receive(s("/a.png"), Some(7));
    assert_eq!(c.step(&s("/a.png")), LoadStep::Cached);
    assert_eq!(c.lookup(&s("/a.png")), Some(&7));
    c.receive(s("/a.png"), Some(9));
    assert_eq!(c.lookup(&s("/a.png")), Some(&9));
}

#[test]
fn failed_load_is_retried() {
    let mut c: ThumbnailCache<u32> = ThumbnailCache::new();
    c.step(&s("/b.bin"));
    c.receive(s("/b.bin"), None);
    assert_eq!(c.step(&s("/b.bin")), LoadStep::Start);
}

#[test]
fn clear_forgets_everything() {
    let mut c: ThumbnailCache<u32> = ThumbnailCache::new();
    c.receive(s("/a"), Some(1));
    c.step(&s("/b"));
    c.clear();
    assert_eq!(c.lookup(&s("/a")), None);
    assert_eq!(c.step(&s("/b")), LoadStep::Start);
}

#[test]
fn video_extensions() {
    for ext in ["mp4", "avi", "mkv", "mov", "wmv", "flv", "MP4", "Mkv", "fLv"] {
        assert!(is_video_extension(ext), "{}", ext);
    }
    for ext in ["", "mp3", "png", "mp44", "mp", "jpg", "MÖV"] {
        assert!(!is_video_extension(ext), "{}", ext);
    }
}

#[test]
fn frame_file_names() {
    assert_eq!(frame_file("clip.mp4"), "temp_thumb_clip.mp4.png");
    assert_eq!(frame_file(""), "temp_thumb_.png");
}

#[test]
fn one_path_written_two_ways_shares_an_entry() {
    let mut c: ThumbnailCache<u32> = ThumbnailCache::new();
    assert_eq!(c.step(&s("/d/a.png")), LoadStep::Start);
    assert_eq!(c.step(&s("/d//a.png")), LoadStep::Pending);
    c.receive(s("/d/./a.png"), Some(3));
    assert_eq!(c.step(&s("/d/a.png")), LoadStep::Cached);
    assert_eq!(c.lookup(&s("/d/a.png/")), Some(&3));
    assert_eq!(c.lookup(&s("/d/b.png")), None);
}
