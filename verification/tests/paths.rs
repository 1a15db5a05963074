use std::path::Path;

use fast6::order::sort_order;
use fast6::path::{extension, file_name, file_stem, form, join, parent, Platform};
use fast6::session::client_out_path;
use fast6::walk::{arrange, find_videos, output_dir, video, video_ext, Entry, EntryKind, Walk};

const SAMPLES: [&str; 26] = [
    "", "/", "//", "a", "a/", "a//", "/a", "/a/", "a/b", "a//b", "a/./b", "./a", ".", "..", "a/..",
    "a/../b", "/..", "a.mp4", ".mp4", "a.b.mkv", "a.", "x/.hidden", "./.", "a/.", "/.", "a b/c d.mov",
];

#[test]
fn paths_are_taken_apart_as_in_std() {
    for t in SAMPLES {
        let p = Path::new(t);
        assert_eq!(file_name(Platform::Unix, t), p.file_name().map(|s| s.to_string_lossy().into_owned()), "name {t:?}");
        assert_eq!(file_stem(Platform::Unix, t), p.file_stem().map(|s| s.to_string_lossy().into_owned()), "stem {t:?}");
        assert_eq!(extension(Platform::Unix, t), p.extension().map(|s| s.to_string_lossy().into_owned()), "extension {t:?}");
        let up = p.parent().map(|q| q.to_string_lossy().into_owned());
        assert_eq!(parent(Platform::Unix, t), up, "parent {t:?}");
    }
}

#[test]
fn paths_are_joined_as_in_std() {
    for a in SAMPLES {
        for b in SAMPLES {
            let want = Path::new(a).join(b).to_string_lossy().into_owned();
            assert_eq!(join(Platform::Unix, a, b), want, "{a:?} {b:?}");
        }
    }
}

#[test]
fn windows_paths() {
    let w = Platform::Windows;
    assert_eq!(file_name(w, r"C:\Util\ffmpeg.exe"), Some("ffmpeg.exe".to_string()));
    assert_eq!(parent(w, r"C:\Util\ffmpeg.exe"), Some(r"C:\Util".to_string()));
    assert_eq!(parent(w, r"C:\Util"), Some(r"C:\".to_string()));
    assert_eq!(parent(w, r"C:\"), None);
    assert_eq!(file_name(w, r"C:\"), None);
    assert_eq!(file_name(w, "a/b\\c.mp4"), Some("c.mp4".to_string()));
    assert_eq!(join(w, r"C:\Util", "x"), r"C:\Util\x");
    assert_eq!(join(w, r"C:\Util\", "x"), r"C:\Util\x");
    assert_eq!(file_stem(w, r"D:\a\film.one.mkv"), Some("film.one".to_string()));
    assert_eq!(extension(w, r"D:\a\film.one.mkv"), Some("mkv".to_string()));
}

#[test]
fn joined_name_comes_last() {
    for dir in ["/", "/tmp", "a/b", "."] {
        let p = join(Platform::Unix, dir, "film.mp4");
        assert_eq!(file_name(Platform::Unix, &p), Some("film.mp4".to_string()));
    }
}

#[test]
fn joined_name_has_its_folder() {
    let w = Platform::Windows;
    for dir in [r"C:\", r"C:\out", "C:", r"\\nas\films\", r"\\nas\films\new", r"\x", "x", ""] {
        let p = join(w, dir, "film.mp4");
        assert_eq!(file_name(w, &p), Some("film.mp4".to_string()), "{p}");
        assert_eq!(parent(w, &p), Some(dir.to_string()), "{p}");
    }
    assert_eq!(parent(w, r"\\nas\films\film.mp4"), Some(r"\\nas\films\".to_string()));
    // Where a folder does not end at its last name, the file's folder does.
    for (dir, home) in [
        (r"\\?\C:\", r"\\?\C:\"),
        (r"\\?\C:\out", r"\\?\C:\out"),
        (r"\\?\C:\out\", r"\\?\C:\out"),
        (r"\\?\UNC\nas\films\", r"\\?\UNC\nas\films\"),
        (r"\\?\UNC\nas\films\new", r"\\?\UNC\nas\films\new"),
        (r"C:\out\\", r"C:\out"),
    ] {
        let p = join(w, dir, "film.mp4");
        assert_eq!(file_name(w, &p), Some("film.mp4".to_string()), "{p}");
        assert_eq!(parent(w, &p), Some(home.to_string()), "{p}");
        assert_eq!(parent(w, &join(w, home, "film.mp4")), Some(home.to_string()), "{p}");
    }
}

#[test]
fn verbatim_folders_are_walked() {
    let mut w = Walk::start(Platform::Windows, r"\\?\C:\v");
    assert_eq!(w.next_dir(), Some(r"\\?\C:\v".to_string()));
    w.take_in(&vec![
        entry(r"\\?\C:\v\b.mkv", EntryKind::File),
        entry(r"\\?\C:\v\a.mp4", EntryKind::File),
        entry(r"\\?\C:\v\reencoded", EntryKind::Dir),
    ]);
    assert_eq!(w.next_dir(), None);
    assert_eq!(find_videos(&w), vec![r"\\?\C:\v\a.mp4", r"\\?\C:\v\b.mkv"]);
    let made = client_out_path(Platform::Windows, r"\\?\C:\v\b.mkv");
    assert_eq!(made, r"\\?\C:\v\reencoded\b.mp4");
    assert!(output_dir(Platform::Windows, &parent(Platform::Windows, &made).unwrap()));
}

#[test]
fn each_video_comes_once() {
    let mut w = Walk::start(Platform::Unix, "/v");
    while let Some(d) = w.next_dir() {
        let mut es: Vec<Entry> =
            ["b.mp4", "a.mp4", "c.txt"].iter().map(|n| entry(&format!("{d}/{n}"), EntryKind::File)).collect();
        if d.len() < 6 {
            es.push(entry(&format!("{d}/x"), EntryKind::Dir));
            es.push(entry(&format!("{d}/y"), EntryKind::Dir));
        }
        w.take_in(&es);
    }
    let found = find_videos(&w);
    assert_eq!(found.len(), 14);
    for p in found.windows(2) {
        assert!(Path::new(&p[0]) < Path::new(&p[1]), "{p:?}");
    }
}

#[test]
fn windows_prefixes() {
    let w = Platform::Windows;
    let name = |s: &str| file_name(w, s);
    let up = |s: &str| parent(w, s);
    let some = |s: &str| Some(s.to_string());
    // A server alone is no prefix, nor is one with an empty share.
    assert_eq!((name(r"\\server"), up(r"\\server")), (some("server"), some(r"\")));
    assert_eq!(name(r"\\server\share"), None);
    assert_eq!(name(r"\\server\share\x"), some("x"));
    // Verbatim paths: the whole share is the prefix, and only the backslash separates.
    assert_eq!((name(r"\\?\UNC\server\share"), up(r"\\?\UNC\server\share\")), (None, None));
    assert_eq!(name(r"\\?\UNC\server\share\x.mp4"), some("x.mp4"));
    assert_eq!(up(r"\\?\UNC\server\share\x.mp4"), some(r"\\?\UNC\server\share\"));
    assert_eq!(name(r"\\?\C:\a/b"), some("a/b"));
    assert_eq!(up(r"\\?\C:\a"), some(r"\\?\C:\"));
    assert_eq!((name(r"\\?\C:"), name(r"\\.\COM1"), name(r"\\.\COM1\x")), (None, None, some("x")));
    assert_eq!(join(w, r"\\?\C:\a", "b/./c"), r"\\?\C:\a\b\c");
    assert_eq!(join(w, r"\\?\C:\a\b", r"..\c"), r"\\?\C:\a\c");
    assert_eq!(join(w, r"\\?\C:\a", r"\x"), r"\\?\C:\x");
    assert_eq!(join(w, r"C:\a", r"\x"), r"C:\x");
}

#[test]
fn paths_are_compared_as_in_std() {
    for a in SAMPLES {
        for b in SAMPLES {
            let u = Platform::Unix;
            assert_eq!(form(u, a) == form(u, b), Path::new(a) == Path::new(b), "{a:?} {b:?}");
        }
    }
    let w = Platform::Windows;
    assert_eq!(form(w, r"c:/a\.\b\"), form(w, r"C:\a\b"));
    assert_eq!(form(w, "//s/h"), form(w, r"\\s\h\"));
    assert!(form(w, r"C:a") != form(w, r"C:\a"));
    assert!(form(w, r"\\?\C:\a") != form(w, r"C:\a"));
}

#[test]
fn sorting_is_stable_and_complete() {
    let keys: Vec<Vec<u32>> =
        vec![vec![2], vec![1, 5], vec![], vec![1], vec![2], vec![1, 4, 9]];
    assert_eq!(sort_order(&keys), vec![2, 3, 5, 1, 0, 4]);
    assert_eq!(sort_order(&vec![]), Vec::<usize>::new());
    let names = vec!["b".to_string(), "a".to_string()];
    assert_eq!(arrange(&names, &vec![1, 0]), vec!["a", "b"]);
}

#[test]
fn videos_by_extension() {
    for e in ["mp4", "mkv", "avi", "mov"] {
        assert!(video_ext(e));
    }
    for e in ["mp3", "", "mp44", "m4v", "MP4"] {
        assert!(!video_ext(e));
    }
    assert!(video(Platform::Unix, "/a/b.MP4"));
    assert!(video(Platform::Unix, "/a/b.mKv"));
    assert!(!video(Platform::Unix, "/a/b.mö4"));
    assert!(!video(Platform::Unix, "/a/.mp4"));
    assert!(!video(Platform::Unix, "/a/mp4"));
    assert!(output_dir(Platform::Unix, "/a/ReEncoded"));
    assert!(!output_dir(Platform::Unix, "/a/reencoded2"));
}

fn entry(path: &str, kind: EntryKind) -> Entry {
    Entry { path: path.to_string(), kind }
}

#[test]
fn a_walk_finds_all_videos_but_the_output() {
    let mut w = Walk::start(Platform::Unix, "/v");
    assert_eq!(w.next_dir(), Some("/v".to_string()));
    w.take_in(&vec![
        entry("/v/z.mp4", EntryKind::File),
        entry("/v/sub", EntryKind::Dir),
        entry("/v/reencoded", EntryKind::Dir),
        entry("/v/notes.txt", EntryKind::File),
        entry("/v/pipe.mp4", EntryKind::Other),
    ]);
    assert_eq!(w.next_dir(), Some("/v/sub".to_string()));
    w.take_in(&vec![entry("/v/sub/A.MKV", EntryKind::File), entry("/v/sub/b.mov", EntryKind::File)]);
    assert_eq!(w.next_dir(), None);
    assert_eq!(find_videos(&w), vec!["/v/sub/A.MKV", "/v/sub/b.mov", "/v/z.mp4"]);
}

#[test]
fn videos_are_sorted_by_their_parts() {
    let files = [
        "/v/a b.mp4", "/v/a/x.mp4", "/v/a.mp4", "/v/B.mp4", "/v/a-b/y.mp4", "/v//a/w.mp4",
        "/v/../!.mp4", "/v/!/x.mp4", "v/x.mp4", "./v/x.mp4",
    ];
    let mut w = Walk::start(Platform::Unix, "/v");
    w.next_dir();
    w.take_in(&files.iter().map(|f| entry(f, EntryKind::File)).collect());
    let mut want: Vec<std::path::PathBuf> = files.iter().map(std::path::PathBuf::from).collect();
    want.sort();
    let want: Vec<String> = want.iter().map(|p| p.to_string_lossy().into_owned()).collect();
    assert_eq!(find_videos(&w), want);
}

#[test]
fn outputs_are_not_found_again() {
    let search = |made: &[String]| {
        let mut w = Walk::start(Platform::Unix, "/v/");
        while let Some(d) = w.next_dir() {
            let mut es: Vec<Entry> = vec![];
            match d.as_str() {
                "/v/" => {
                    es.push(entry("/v/a.mp4", EntryKind::File));
                    es.push(entry("/v/s", EntryKind::Dir));
                }
                "/v/s" => es.push(entry("/v/s/b.mkv", EntryKind::File)),
                _ => {}
            }
            for m in made {
                let dir = parent(Platform::Unix, m).unwrap();
                if d == dir {
                    es.push(entry(m, EntryKind::File));
                } else if Path::new(&dir).parent() == Some(Path::new(&d)) {
                    es.push(entry(&dir, EntryKind::Dir));
                }
            }
            w.take_in(&es);
        }
        find_videos(&w)
    };
    let first = search(&[]);
    assert_eq!(first, vec!["/v/a.mp4", "/v/s/b.mkv"]);
    let made: Vec<String> = first.iter().map(|f| client_out_path(Platform::Unix, f)).collect();
    assert_eq!(made, vec!["/v/reencoded/a.mp4", "/v/s/reencoded/b.mp4"]);
    assert_eq!(search(&made), first);
}
