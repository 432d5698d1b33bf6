use papilio_core::catalog::{Catalog, LyricsSource, TrackInput};
use papilio_core::cover::{embedded_picture_ext, save_cover_step};
use papilio_core::error::AppError;
use papilio_core::fsmodel::MemFs;
use papilio_core::lock::StructuralLock;
use papilio_core::organizer::{
    organize_dest, organize_file, parse_id, run_organize, OrganizeItem,
};
use papilio_core::status::ScanStatus;
use papilio_core::tags::{apply_field_defaults, select_fields, SelectedFields, TagBlock};

fn tagged(title: &str, artist: &str, album: &str) -> TagBlock {
    TagBlock {
        title: Some(title.to_string()),
        artist: Some(artist.to_string()),
        album: Some(album.to_string()),
        track_number: None,
        year: None,
        lyrics: None,
        has_picture: false,
    }
}

fn seed_track(c: &mut Catalog, path: &str) -> u64 {
    let artist = c.get_or_create_artist(&"A".to_string());
    let album = c.get_or_create_album(&"X".to_string(), artist, None);
    c.upsert_track(TrackInput {
        title: "Song".to_string(),
        album_id: album,
        artist_id: artist,
        duration: 1,
        track_number: None,
        path: path.to_string(),
        bitrate: None,
        format: "mp3".to_string(),
        size: 1,
        lyrics: None,
        lyrics_source: LyricsSource::Absent,
    })
}

#[test]
fn robust_move_falls_back_to_copy_and_delete() {
    let mut fs = MemFs::new();
    let src = "disk1/a.mp3".to_string();
    let dest = "disk2/a.mp3".to_string();
    fs.put(&src, 77, 100);
    // a cross-device rename failure falls back to copy + delete: the
    // file ends at the destination, gone from the source
    let r = fs.robust_move(&src, &dest, false, true);
    assert!(r.is_ok());
    assert!(!fs.file_exists(&src));
    assert_eq!(fs.content_at(&dest), Some(77));
}

#[test]
fn failed_copy_leaves_no_partial_state() {
    let mut fs = MemFs::new();
    let src = "disk1/a.mp3".to_string();
    let dest = "disk2/a.mp3".to_string();
    fs.put(&src, 77, 100);
    // rename fails and the copy itself fails: the source remains, the
    // destination stays absent
    let r = fs.robust_move(&src, &dest, false, false);
    assert!(matches!(r, Err(AppError::Io(_))));
    assert_eq!(fs.content_at(&src), Some(77));
    assert!(!fs.file_exists(&dest));
}

#[test]
fn missing_source_is_an_io_error() {
    let mut fs = MemFs::new();
    let r = fs.robust_move(&"nowhere.mp3".to_string(), &"d/x.mp3".to_string(), true, true);
    assert!(matches!(r, Err(AppError::Io(_))));
}

#[test]
fn empty_tag_frames_are_skipped_and_defaults_apply() {
    // an empty artist frame in the first block does not win over the
    // non-empty one in the second
    let first = TagBlock {
        title: Some("".to_string()),
        artist: Some("".to_string()),
        album: None,
        track_number: None,
        year: None,
        lyrics: None,
        has_picture: false,
    };
    let second = tagged("Real Title", "Real Artist", "Real Album");
    let sel = select_fields(&vec![first.clone(), second]);
    assert_eq!(sel.title, Some("Real Title".to_string()));
    assert_eq!(sel.artist, Some("Real Artist".to_string()));
    assert_eq!(sel.album, Some("Real Album".to_string()));

    // with only empty frames, every field stays unresolved and the
    // defaults take over
    let sel2 = select_fields(&vec![first]);
    assert_eq!(sel2.title, None);
    assert_eq!(sel2.artist, None);
    assert_eq!(sel2.album, None);
    let (title, artist, album) = apply_field_defaults(&sel2, &"my song".to_string());
    assert_eq!(title, "my song");
    assert_eq!(artist, "Unknown Artist");
    assert_eq!(album, "Unknown Album");
    let (no_stem_title, _, _) = apply_field_defaults(&sel2, &"".to_string());
    assert_eq!(no_stem_title, "Unknown");

    // an empty-tagged file routes to the unsorted bucket, not to an
    // empty path component
    let dest = organize_dest("lib", &sel2, &"lib/loose/track.mp3".to_string());
    assert_eq!(dest, "lib/Unsorted/track.mp3");
}

#[test]
fn embedded_cover_never_overwrites_a_non_empty_file() {
    let mut catalog = Catalog::new();
    let artist = catalog.get_or_create_artist(&"A".to_string());
    let album = catalog.get_or_create_album(&"X".to_string(), artist, None);
    let dest = "lib/A/X/cover.png".to_string();
    let png = Some("image/png".to_string());
    assert_eq!(embedded_picture_ext(png.as_ref()), "png");
    assert_eq!(embedded_picture_ext(Some(&"image/jpeg".to_string())), "jpg");
    assert_eq!(embedded_picture_ext(None), "jpg");

    // nothing at the destination: the picture is written and the row
    // records the root-relative reference
    let mut fs = MemFs::new();
    let r = save_cover_step(&mut fs, &mut catalog, album, png.as_ref(), &"lib".to_string(), 7, 900);
    assert!(r.is_ok());
    assert_eq!(fs.content_at(&dest), Some(7));
    assert_eq!(catalog.album_by_id(album).unwrap().cover, Some("A/X/cover.png".to_string()));

    // a non-empty file already there is never overwritten; the row is
    // still updated
    let mut fs2 = MemFs::new();
    fs2.put(&dest, 1, 500);
    let r2 = save_cover_step(&mut fs2, &mut catalog, album, png.as_ref(), &"lib".to_string(), 7, 900);
    assert!(r2.is_ok());
    assert_eq!(fs2.content_at(&dest), Some(1));

    // an empty file there IS replaced
    let mut fs3 = MemFs::new();
    fs3.put(&dest, 1, 0);
    let r3 = save_cover_step(&mut fs3, &mut catalog, album, png.as_ref(), &"lib".to_string(), 7, 900);
    assert!(r3.is_ok());
    assert_eq!(fs3.content_at(&dest), Some(7));

    // a missing album is a store error and changes nothing
    let mut fs4 = MemFs::new();
    let r4 = save_cover_step(&mut fs4, &mut catalog, 9999, png.as_ref(), &"lib".to_string(), 7, 900);
    assert!(matches!(r4, Err(AppError::Database(_))));
    assert!(!fs4.file_exists(&dest));
}

#[test]
fn canonical_destination_and_unsorted_bucket() {
    let complete = SelectedFields {
        title: Some("Song:One".to_string()),
        artist: Some("AC/DC".to_string()),
        album: Some("Back?Black".to_string()),
        track_number: None,
        year: None,
    };
    // the sanitizer drops characters illegal in file names
    let dest = organize_dest("lib", &complete, &"old/whatever.mp3".to_string());
    assert_eq!(dest, "lib/ACDC/BackBlack/SongOne.mp3");

    let incomplete = SelectedFields {
        title: Some("Song".to_string()),
        artist: None,
        album: Some("X".to_string()),
        track_number: None,
        year: None,
    };
    let dest2 = organize_dest("lib", &incomplete, &"old/whatever.mp3".to_string());
    assert_eq!(dest2, "lib/Unsorted/whatever.mp3");
}

#[test]
fn organize_moves_file_sidecars_and_catalog_row() {
    let mut fs = MemFs::new();
    let mut catalog = Catalog::new();
    let path = "lib/loose/song.mp3".to_string();
    seed_track(&mut catalog, &path);
    fs.put(&path, 1, 100);
    fs.put(&"lib/loose/song.lrc".to_string(), 2, 100);
    fs.put(&"lib/loose/cover.jpg".to_string(), 3, 100);

    let blocks = vec![tagged("Song", "A", "X")];
    let r = organize_file(&mut fs, &mut catalog, &path, &blocks, "lib");
    assert!(r.is_ok());
    assert!(!fs.file_exists(&path));
    assert!(fs.file_exists(&"lib/A/X/Song.mp3".to_string()));
    assert!(fs.file_exists(&"lib/A/X/Song.lrc".to_string()));
    assert!(fs.file_exists(&"lib/A/X/cover.jpg".to_string()));
    assert!(catalog.track_by_path(&"lib/A/X/Song.mp3".to_string()).is_some());
}

#[test]
fn organize_collision_leaves_source_untouched() {
    let mut fs = MemFs::new();
    let mut catalog = Catalog::new();
    let path = "lib/loose/song.mp3".to_string();
    seed_track(&mut catalog, &path);
    fs.put(&path, 1, 100);
    fs.put(&"lib/A/X/Song.mp3".to_string(), 9, 100);

    let blocks = vec![tagged("Song", "A", "X")];
    let r = organize_file(&mut fs, &mut catalog, &path, &blocks, "lib");
    assert!(r.is_ok());
    // no overwrite, no error: the source stays, the occupant stays
    assert_eq!(fs.content_at(&path), Some(1));
    assert_eq!(fs.content_at(&"lib/A/X/Song.mp3".to_string()), Some(9));
    assert!(catalog.track_by_path(&path).is_some());
}

#[test]
fn organize_in_place_still_moves_sidecars() {
    let mut fs = MemFs::new();
    let mut catalog = Catalog::new();
    let path = "lib/A/X/Song.mp3".to_string();
    seed_track(&mut catalog, &path);
    fs.put(&path, 1, 100);

    let blocks = vec![tagged("Song", "A", "X")];
    let r = organize_file(&mut fs, &mut catalog, &path, &blocks, "lib");
    assert!(r.is_ok());
    assert_eq!(fs.content_at(&path), Some(1));
}

#[test]
fn organize_requires_the_structural_lock() {
    let mut fs = MemFs::new();
    let mut catalog = Catalog::new();
    let mut lock = StructuralLock::new();
    let mut status = ScanStatus::new();
    assert!(lock.try_acquire());
    let r = run_organize(
        &mut fs,
        &mut catalog,
        &mut lock,
        &mut status,
        &"lib".to_string(),
        &Vec::new(),
        &"data/avatars".to_string(),
        &Vec::new(),
        &"data/covers".to_string(),
        &Vec::new(),
        &Vec::new(),
        5,
    );
    assert!(matches!(r, Err(AppError::BadRequest(_))));
    lock.release();
    let r2 = run_organize(
        &mut fs,
        &mut catalog,
        &mut lock,
        &mut status,
        &"lib".to_string(),
        &Vec::new(),
        &"data/avatars".to_string(),
        &Vec::new(),
        &"data/covers".to_string(),
        &Vec::new(),
        &Vec::new(),
        5,
    );
    assert!(r2.is_ok());
    assert!(!lock.is_locked());
    assert!(!status.is_scanning);
    assert_eq!(status.last_scan_at, Some(5));
}

#[test]
fn full_organize_recovers_assets_and_loose_lyrics() {
    let mut fs = MemFs::new();
    let mut catalog = Catalog::new();
    let mut lock = StructuralLock::new();
    let mut status = ScanStatus::new();
    let artist = catalog.get_or_create_artist(&"A".to_string());
    let album = catalog.get_or_create_album(&"X".to_string(), artist, None);
    seed_track(&mut catalog, "lib/A/X/Song.mp3");
    fs.put(&"lib/A/X/Song.mp3".to_string(), 1, 100);
    // an internally cached avatar keyed by the artist id
    let avatar_name = format!("artist_{}.jpg", artist);
    fs.put(&format!("data/avatars/{}", avatar_name), 2, 100);
    // an internally cached cover keyed by the album id
    let cover_name = format!("{}.png", album);
    fs.put(&format!("data/covers/{}", cover_name), 3, 100);
    // a loose lyric file in the library root whose leading token matches
    fs.put(&"lib/Song - live.lrc".to_string(), 4, 100);

    let items = vec![OrganizeItem {
        path: "lib/A/X/Song.mp3".to_string(),
        blocks: Some(vec![tagged("Song", "A", "X")]),
    }];
    let r = run_organize(
        &mut fs,
        &mut catalog,
        &mut lock,
        &mut status,
        &"lib".to_string(),
        &items,
        &"data/avatars".to_string(),
        &vec![avatar_name],
        &"data/covers".to_string(),
        &vec![cover_name],
        &vec!["Song - live.lrc".to_string()],
        9,
    );
    assert!(r.is_ok());
    assert!(fs.file_exists(&"lib/A/folder.jpg".to_string()));
    assert!(fs.file_exists(&"lib/A/X/cover.png".to_string()));
    assert_eq!(catalog.artist_by_id(artist).unwrap().image, Some("A/folder.jpg".to_string()));
    assert_eq!(catalog.album_by_id(album).unwrap().cover, Some("A/X/cover.png".to_string()));
    // the loose lyric moved next to the matching track
    assert!(!fs.file_exists(&"lib/Song - live.lrc".to_string()));
    assert!(fs.file_exists(&"lib/A/X/Song - live.lrc".to_string()));
}

#[test]
fn parse_id_accepts_only_plain_digit_runs() {
    assert_eq!(parse_id(&"42".to_string()), Some(42));
    assert_eq!(parse_id(&"0".to_string()), Some(0));
    assert_eq!(parse_id(&"".to_string()), None);
    assert_eq!(parse_id(&"12a".to_string()), None);
    assert_eq!(parse_id(&"9999999999999999999".to_string()), Some(9999999999999999999));
    assert_eq!(parse_id(&"99999999999999999990".to_string()), None);
}
