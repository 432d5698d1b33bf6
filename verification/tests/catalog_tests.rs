use papilio_core::catalog::{Catalog, LyricsSource, SyncStatus, TrackInput};
use papilio_core::error::AppError;

fn track_input(path: &str, album_id: u64, artist_id: u64, lyrics: Option<&str>) -> TrackInput {
    TrackInput {
        title: "Song".to_string(),
        album_id,
        artist_id,
        duration: 200,
        track_number: Some(1),
        path: path.to_string(),
        bitrate: Some(320),
        format: "mp3".to_string(),
        size: 1024,
        lyrics: lyrics.map(|s| s.to_string()),
        lyrics_source: if lyrics.is_some() { LyricsSource::File } else { LyricsSource::Absent },
    }
}

#[test]
fn artist_upsert_is_idempotent() {
    let mut c = Catalog::new();
    let a1 = c.get_or_create_artist(&"Artist A".to_string());
    let snapshot = c.clone();
    let a2 = c.get_or_create_artist(&"Artist A".to_string());
    assert_eq!(a1, a2);
    assert_eq!(c, snapshot);
    assert_eq!(c.artists.len(), 1);
}

#[test]
fn album_year_filled_once_never_overwritten() {
    // year given first, then missing: stays
    let mut c = Catalog::new();
    let artist = c.get_or_create_artist(&"A".to_string());
    let album = c.get_or_create_album(&"X".to_string(), artist, Some(2020));
    let again = c.get_or_create_album(&"X".to_string(), artist, None);
    assert_eq!(album, again);
    assert_eq!(c.album_by_id(album).unwrap().year, Some(2020));

    // missing first, then given: fills
    let mut c2 = Catalog::new();
    let artist2 = c2.get_or_create_artist(&"A".to_string());
    let album2 = c2.get_or_create_album(&"X".to_string(), artist2, None);
    assert_eq!(c2.album_by_id(album2).unwrap().year, None);
    let again2 = c2.get_or_create_album(&"X".to_string(), artist2, Some(2020));
    assert_eq!(album2, again2);
    assert_eq!(c2.album_by_id(album2).unwrap().year, Some(2020));

    // a different later year never overwrites
    let third = c2.get_or_create_album(&"X".to_string(), artist2, Some(1999));
    assert_eq!(album2, third);
    assert_eq!(c2.album_by_id(album2).unwrap().year, Some(2020));
}

#[test]
fn track_upsert_no_duplicates_on_same_path() {
    let mut c = Catalog::new();
    let artist = c.get_or_create_artist(&"A".to_string());
    let album = c.get_or_create_album(&"X".to_string(), artist, None);
    let t1 = c.upsert_track(track_input("m/a.mp3", album, artist, None));
    let t2 = c.upsert_track(track_input("m/a.mp3", album, artist, None));
    assert_eq!(t1, t2);
    assert_eq!(c.tracks.len(), 1);
}

#[test]
fn sync_status_resets_exactly_on_lyric_change() {
    let mut c = Catalog::new();
    let artist = c.get_or_create_artist(&"A".to_string());
    let album = c.get_or_create_album(&"X".to_string(), artist, None);
    let id = c.upsert_track(track_input("m/a.mp3", album, artist, Some("line one")));
    assert_eq!(c.tracks[0].sync_status, SyncStatus::Pending);

    // mark completed, re-upsert with the identical text: unchanged
    c.tracks[0].sync_status = SyncStatus::Completed;
    c.upsert_track(track_input("m/a.mp3", album, artist, Some("line one")));
    assert_eq!(c.tracks[0].sync_status, SyncStatus::Completed);

    // a new non-null value resets to pending
    c.upsert_track(track_input("m/a.mp3", album, artist, Some("line two")));
    assert_eq!(c.tracks[0].sync_status, SyncStatus::Pending);
    assert_eq!(c.tracks[0].lyrics, Some("line two".to_string()));
    let _ = id;
}

#[test]
fn orphan_sweep_removes_only_absent_paths() {
    let mut c = Catalog::new();
    let artist = c.get_or_create_artist(&"A".to_string());
    let album = c.get_or_create_album(&"X".to_string(), artist, None);
    c.upsert_track(track_input("m/kept.mp3", album, artist, None));
    c.upsert_track(track_input("m/gone.mp3", album, artist, None));
    let present = vec!["m/kept.mp3".to_string()];
    c.orphan_sweep(&present);
    assert_eq!(c.tracks.len(), 1);
    assert_eq!(c.tracks[0].path, "m/kept.mp3");
    assert!(c.track_by_path(&"m/gone.mp3".to_string()).is_none());
}

#[test]
fn track_path_update_and_collision() {
    let mut c = Catalog::new();
    let artist = c.get_or_create_artist(&"A".to_string());
    let album = c.get_or_create_album(&"X".to_string(), artist, None);
    c.upsert_track(track_input("m/a.mp3", album, artist, None));
    c.upsert_track(track_input("m/b.mp3", album, artist, None));

    // a clean move updates the row
    let ok = c.update_track_path(&"m/a.mp3".to_string(), &"m/c.mp3".to_string());
    assert!(ok.is_ok());
    assert!(c.track_by_path(&"m/c.mp3".to_string()).is_some());

    // a collision with another row is a store error and changes nothing
    let err = c.update_track_path(&"m/c.mp3".to_string(), &"m/b.mp3".to_string());
    assert!(matches!(err, Err(AppError::Database(_))));
    assert!(c.track_by_path(&"m/c.mp3".to_string()).is_some());

    // an update matching no row is a silent no-op
    let none = c.update_track_path(&"m/zzz.mp3".to_string(), &"m/q.mp3".to_string());
    assert!(none.is_ok());
}

#[test]
fn enrichment_setters() {
    let mut c = Catalog::new();
    let artist = c.get_or_create_artist(&"A".to_string());
    let album = c.get_or_create_album(&"X".to_string(), artist, None);
    c.set_artist_provider(artist, &"mbid-1234".to_string());
    c.set_artist_image(artist, &"A/folder.jpg".to_string());
    c.enrich_album(album, &"rel-5678".to_string(), Some(1999));
    assert_eq!(c.artist_by_id(artist).unwrap().provider_id, Some("mbid-1234".to_string()));
    assert_eq!(c.artist_by_id(artist).unwrap().image, Some("A/folder.jpg".to_string()));
    assert_eq!(c.album_by_id(album).unwrap().provider_id, Some("rel-5678".to_string()));
    assert_eq!(c.album_by_id(album).unwrap().year, Some(1999));
    // fill-once also through enrichment
    c.enrich_album(album, &"rel-9".to_string(), Some(2024));
    assert_eq!(c.album_by_id(album).unwrap().year, Some(1999));
    assert_eq!(c.album_by_id(album).unwrap().provider_id, Some("rel-9".to_string()));
}

#[test]
fn error_response_carries_message() {
    let variants = vec![
        AppError::Database("db".to_string()),
        AppError::Auth("auth".to_string()),
        AppError::Internal("internal".to_string()),
        AppError::NotFound("missing".to_string()),
        AppError::BadRequest("bad".to_string()),
        AppError::Io("io".to_string()),
        AppError::Metadata("meta".to_string()),
    ];
    let expected = vec!["db", "auth", "internal", "missing", "bad", "io", "meta"];
    for (e, m) in variants.iter().zip(expected.iter()) {
        assert_eq!(e.to_response().error, m.to_string());
    }
}
