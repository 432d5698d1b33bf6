use papilio_core::catalog::Catalog;
use papilio_core::cover::{backfill_artist_image, cover_dest_path, pick_avatar, pick_external_cover, pick_picture_block};
use papilio_core::error::AppError;
use papilio_core::metadata::{
    album_cover_filename, apply_album_search, apply_artist_search, artist_image_filename,
    artists_missing_image, next_retry_step, record_album_cover, RetryDecision,
    backoff_delay_ms, begin_artist_sync, choose_image_source, commons_url_for_image, cover_art_url,
    encyclopedia_entity_url, extract_scraped_image, fetch_lyrics_online, finish_artist_sync,
    image_ext, pick_front_cover, record_artist_image, record_sync_item, release_year,
    resolve_image_url, scrape_page_url, should_retry, CoverImageEntry, ImageSource,
    ProviderRelation, SyncItemOutcome,
};
use papilio_core::status::ArtistSyncStatus;
use papilio_core::tags::TagBlock;

fn rel(kind: &str, url: &str) -> ProviderRelation {
    ProviderRelation { kind: kind.to_string(), url: url.to_string() }
}

#[test]
fn commons_url_uses_the_content_hash_scheme() {
    // md5("Test_Image.jpg") = 74686482772334dfdfa582895acbfa47
    assert_eq!(
        commons_url_for_image("Test Image.jpg"),
        "https://upload.wikimedia.org/wikipedia/commons/7/74/Test_Image.jpg"
    );
}

#[test]
fn file_page_resolution_uses_the_last_marker() {
    // a page URL holding the marker twice names the file after the LAST
    // occurrence (md5("Foo_Bar.jpg") = 158c29b335ed8c2973f057fc74992edd)
    assert_eq!(
        resolve_image_url("https://commons.wikimedia.org/wiki/File:commons.wikimedia.org/wiki/File:Foo%20Bar.jpg"),
        "https://upload.wikimedia.org/wikipedia/commons/1/15/Foo_Bar.jpg"
    );
}

#[test]
fn album_cover_persistence_names() {
    let mut c = Catalog::new();
    let artist = c.get_or_create_artist(&"A".to_string());
    let album = c.get_or_create_album(&"X".to_string(), artist, None);
    assert_eq!(album_cover_filename(album, "png"), format!("{}.png", album));
    record_album_cover(&mut c, album, &"png".to_string());
    assert_eq!(
        c.album_by_id(album).unwrap().cover,
        Some(format!("data/covers/{}.png", album))
    );
}

#[test]
fn image_url_resolution_unwraps_mirrors_and_file_pages() {
    // an encyclopedia file page becomes the direct media URL
    // (md5("Foo_Bar.jpg") = 158c29b335ed8c2973f057fc74992edd)
    assert_eq!(
        resolve_image_url("https://commons.wikimedia.org/wiki/File:Foo%20Bar.jpg"),
        "https://upload.wikimedia.org/wikipedia/commons/1/15/Foo_Bar.jpg"
    );
    // an archive-mirror wrapper is unwrapped first
    assert_eq!(
        resolve_image_url("https://web.archive.org/web/2021/https://example.org/pic.jpg"),
        "https://example.org/pic.jpg"
    );
    // anything else passes through
    assert_eq!(resolve_image_url("https://example.org/pic.jpg"), "https://example.org/pic.jpg");
}

#[test]
fn scraped_thumbnails_upgrade_to_high_resolution() {
    let html = "<img src=\"https://lastfm.freetls.fastly.net/i/u/avatar170s/abc123def\">";
    assert_eq!(
        extract_scraped_image(html),
        Some("https://lastfm.freetls.fastly.net/i/u/770x770/abc123def.jpg".to_string())
    );
    let html2 = "nothing here but https://lastfm.freetls.fastly.net/i/u/300x300/00ff11";
    assert_eq!(
        extract_scraped_image(html2),
        Some("https://lastfm.freetls.fastly.net/i/u/770x770/00ff11.jpg".to_string())
    );
    assert_eq!(extract_scraped_image("no image anywhere"), None);
}

#[test]
fn image_waterfall_order() {
    // a direct image relation wins
    let rels = vec![rel("wikidata", "https://www.wikidata.org/wiki/Q123"), rel("image", "https://img/x.jpg")];
    assert!(matches!(choose_image_source(&rels), ImageSource::Direct(u) if u == "https://img/x.jpg"));
    // else the encyclopedia identifier (the trailing URL segment)
    let rels2 = vec![rel("other", "x"), rel("wikidata", "https://www.wikidata.org/wiki/Q123")];
    assert!(matches!(choose_image_source(&rels2), ImageSource::Encyclopedia(q) if q == "Q123"));
    // else the public catalog scrape
    let rels3 = vec![rel("other", "x")];
    assert!(matches!(choose_image_source(&rels3), ImageSource::Scrape));
}

#[test]
fn provider_urls() {
    assert_eq!(
        scrape_page_url("AC/DC"),
        "https://www.last.fm/music/AC%2FDC/+images"
    );
    assert_eq!(
        encyclopedia_entity_url("Q123"),
        "https://www.wikidata.org/wiki/Special:EntityData/Q123.json"
    );
    assert_eq!(cover_art_url("rel-1"), "https://coverartarchive.org/release/rel-1");
}

#[test]
fn download_persistence_and_graceful_degradation() {
    assert_eq!(image_ext(Some(&"image/png".to_string())), "png");
    assert_eq!(image_ext(Some(&"image/webp".to_string())), "webp");
    assert_eq!(image_ext(Some(&"image/gif".to_string())), "gif");
    assert_eq!(image_ext(Some(&"text/html".to_string())), "jpg");
    assert_eq!(image_ext(None), "jpg");

    let mut c = Catalog::new();
    let artist = c.get_or_create_artist(&"A".to_string());
    assert_eq!(artist_image_filename(artist, "png"), format!("artist_{}.png", artist));

    // a successful download stores the cache file name
    record_artist_image(&mut c, artist, &"https://x/img".to_string(), Some(&"png".to_string()));
    assert_eq!(c.artist_by_id(artist).unwrap().image, Some(format!("artist_{}.png", artist)));

    // a failed download degrades to the resolved remote URL
    record_artist_image(
        &mut c,
        artist,
        &"https://commons.wikimedia.org/wiki/File:Foo%20Bar.jpg".to_string(),
        None,
    );
    assert_eq!(
        c.artist_by_id(artist).unwrap().image,
        Some("https://upload.wikimedia.org/wikipedia/commons/1/15/Foo_Bar.jpg".to_string())
    );
}

#[test]
fn search_results_first_wins_and_fill_once() {
    let mut c = Catalog::new();
    let artist = c.get_or_create_artist(&"A".to_string());
    let album = c.get_or_create_album(&"X".to_string(), artist, None);

    assert!(apply_artist_search(&mut c, artist, Some(&"mb-artist-1".to_string())));
    assert_eq!(c.artist_by_id(artist).unwrap().provider_id, Some("mb-artist-1".to_string()));
    assert!(!apply_artist_search(&mut c, artist, None));

    // the album search persists the provider id and the year, and asks
    // for a cover fetch while none is recorded
    let date = "1980-07-25".to_string();
    let follow = apply_album_search(&mut c, album, Some((&"mb-rel-1".to_string(), Some(&date))));
    assert!(follow);
    assert_eq!(c.album_by_id(album).unwrap().provider_id, Some("mb-rel-1".to_string()));
    assert_eq!(c.album_by_id(album).unwrap().year, Some(1980));

    // once a cover is recorded, no fetch follows
    c.set_album_cover(album, &"A/X/cover.jpg".to_string());
    let follow2 = apply_album_search(&mut c, album, Some((&"mb-rel-2".to_string(), None)));
    assert!(!follow2);

    assert_eq!(release_year(&"1999-01-01".to_string()), Some(1999));
    assert_eq!(release_year(&"1999".to_string()), Some(1999));
    assert_eq!(release_year(&"unknown".to_string()), None);
}

#[test]
fn front_cover_pick() {
    let entries = vec![
        CoverImageEntry { front: false, url: "https://caa/back.jpg".to_string() },
        CoverImageEntry { front: true, url: "https://caa/front.jpg".to_string() },
        CoverImageEntry { front: true, url: "https://caa/front2.jpg".to_string() },
    ];
    assert_eq!(pick_front_cover(&entries), Some("https://caa/front.jpg".to_string()));
    let none = vec![CoverImageEntry { front: false, url: "x".to_string() }];
    assert_eq!(pick_front_cover(&none), None);
}

#[test]
fn batch_machinery_and_retry_policy() {
    let mut status = ArtistSyncStatus::new();
    // an empty batch is a success with nothing started
    assert_eq!(begin_artist_sync(&mut status, 0), Ok(false));
    assert!(!status.is_syncing);
    assert_eq!(begin_artist_sync(&mut status, 3), Ok(true));
    // a second batch is refused while one runs
    assert!(matches!(begin_artist_sync(&mut status, 3), Err(AppError::BadRequest(_))));

    record_sync_item(&mut status, SyncItemOutcome::Done);
    assert_eq!(status.current_count, 1);
    assert_eq!(status.last_error, None);
    // a failure is recorded as the batch's last error, the batch goes on
    record_sync_item(&mut status, SyncItemOutcome::Failed("boom".to_string()));
    assert_eq!(status.current_count, 2);
    assert_eq!(status.last_error, Some("boom".to_string()));
    // a timeout is recorded too
    record_sync_item(&mut status, SyncItemOutcome::TimedOut);
    assert_eq!(status.current_count, 3);
    assert!(status.last_error.is_some());
    finish_artist_sync(&mut status, 77);
    assert!(!status.is_syncing);
    assert_eq!(status.last_sync_at, Some(77));

    // exponential backoff with shortening jitter, three attempts
    assert_eq!(backoff_delay_ms(1, 0), 1000);
    assert_eq!(backoff_delay_ms(2, 100), 1900);
    assert_eq!(backoff_delay_ms(3, 5000), 0);
    assert!(should_retry(0));
    assert!(should_retry(2));
    assert!(!should_retry(3));

    // while attempts remain the item retries; exhaustion surfaces a
    // metadata-class error carrying the last failure
    let last = "connection reset".to_string();
    assert_eq!(next_retry_step(1, 0, &last), RetryDecision::Retry(1000));
    assert_eq!(next_retry_step(2, 500, &last), RetryDecision::Retry(1500));
    match next_retry_step(3, 0, &last) {
        RetryDecision::GiveUp(e) => {
            assert!(matches!(&e, AppError::Metadata(_)));
            assert_eq!(e.message(), "retries exhausted: connection reset");
        }
        other => panic!("expected exhaustion, got {:?}", other),
    }
}

#[test]
fn missing_image_batch_targets() {
    let mut c = Catalog::new();
    let a1 = c.get_or_create_artist(&"HasImage".to_string());
    let a2 = c.get_or_create_artist(&"NoImage".to_string());
    let a3 = c.get_or_create_artist(&"EmptyImage".to_string());
    c.set_artist_image(a1, &"x/folder.jpg".to_string());
    c.set_artist_image(a3, &"".to_string());
    let missing = artists_missing_image(&c);
    assert_eq!(missing, vec![a2, a3]);
}

#[test]
fn cloud_lyrics_write_through() {
    let mut c = Catalog::new();
    let artist = c.get_or_create_artist(&"A".to_string());
    let album = c.get_or_create_album(&"X".to_string(), artist, None);
    let id = c.upsert_track(papilio_core::catalog::TrackInput {
        title: "Song".to_string(),
        album_id: album,
        artist_id: artist,
        duration: 1,
        track_number: None,
        path: "m/a.mp3".to_string(),
        bitrate: None,
        format: "mp3".to_string(),
        size: 1,
        lyrics: None,
        lyrics_source: papilio_core::catalog::LyricsSource::Absent,
    });
    fetch_lyrics_online(&mut c, id, "Song", "A");
    let lyr = c.track_by_id(id).unwrap().lyrics.clone().unwrap();
    assert_eq!(lyr, "[00:00.00] Song\n[00:02.00] A\n[00:04.00] (自动同步云端歌词)");
}

#[test]
fn external_cover_priority() {
    let stem = "song".to_string();
    // the prioritized prefixes in order
    let names = vec![
        "front.png".to_string(),
        "cover.jpg".to_string(),
        "song.jpg".to_string(),
    ];
    assert_eq!(pick_external_cover(&names, &stem), Some("cover.jpg".to_string()));
    let names2 = vec!["front.png".to_string(), "song.jpg".to_string()];
    assert_eq!(pick_external_cover(&names2, &stem), Some("front.png".to_string()));
    // a stem-exact match beats a lone unrelated image only through the
    // priority order
    let names3 = vec!["SONG.JPG".to_string(), "liner-notes.pdf".to_string()];
    assert_eq!(pick_external_cover(&names3, &stem), Some("SONG.JPG".to_string()));
    // a single image wins by elimination
    let names4 = vec!["whatever.webp".to_string(), "notes.txt".to_string()];
    assert_eq!(pick_external_cover(&names4, &stem), Some("whatever.webp".to_string()));
    // two unrelated images: no choice
    let names5 = vec!["one.jpg".to_string(), "two.jpg".to_string()];
    assert_eq!(pick_external_cover(&names5, &stem), None);
}

#[test]
fn embedded_picture_choice_and_dest() {
    let with_pic = TagBlock {
        title: None,
        artist: None,
        album: None,
        track_number: None,
        year: None,
        lyrics: None,
        has_picture: true,
    };
    let without = TagBlock { has_picture: false, ..with_pic.clone() };
    // the primary block wins when it has a picture
    let blocks = vec![without.clone(), with_pic.clone(), with_pic.clone()];
    assert_eq!(pick_picture_block(&blocks, Some(2)), Some(2));
    // else the first block with one
    assert_eq!(pick_picture_block(&blocks, Some(0)), Some(1));
    assert_eq!(pick_picture_block(&blocks, None), Some(1));
    assert_eq!(pick_picture_block(&vec![without.clone()], None), None);

    assert_eq!(cover_dest_path("lib", "AC/DC", "Back?Black", "jpg"), "lib/ACDC/BackBlack/cover.jpg");
    let emb = papilio_core::cover::embedded_cover_dest("lib", "AC/DC", "Back?Black", "jpg");
    assert_eq!(emb, "lib/AC_DC/Back_Black/cover.jpg");
    assert_eq!(
        papilio_core::cover::avatar_dest_path("lib", "AC/DC", "png"),
        "lib/ACDC/folder.png"
    );
}

#[test]
fn avatar_backfill_into_catalog() {
    let mut c = Catalog::new();
    let artist = c.get_or_create_artist(&"A".to_string());
    // probes the audio file's directory first, then one level up
    backfill_artist_image(
        &mut c,
        artist,
        &"lib/A/X".to_string(),
        &vec!["song.mp3".to_string()],
        &"lib/A".to_string(),
        &vec!["folder.jpg".to_string()],
        &"lib".to_string(),
    );
    assert_eq!(c.artist_by_id(artist).unwrap().image, Some("A/folder.jpg".to_string()));
    // an artist that already has an image is left alone
    backfill_artist_image(
        &mut c,
        artist,
        &"lib/A/X".to_string(),
        &vec!["artist.png".to_string()],
        &"lib/A".to_string(),
        &Vec::new(),
        &"lib".to_string(),
    );
    assert_eq!(c.artist_by_id(artist).unwrap().image, Some("A/folder.jpg".to_string()));
}

#[test]
fn rescan_lookup_by_id() {
    let mut c = Catalog::new();
    let artist = c.get_or_create_artist(&"A".to_string());
    let album = c.get_or_create_album(&"X".to_string(), artist, None);
    let id = c.upsert_track(papilio_core::catalog::TrackInput {
        title: "Song".to_string(),
        album_id: album,
        artist_id: artist,
        duration: 1,
        track_number: None,
        path: "m/a.mp3".to_string(),
        bitrate: None,
        format: "mp3".to_string(),
        size: 1,
        lyrics: None,
        lyrics_source: papilio_core::catalog::LyricsSource::Absent,
    });
    assert_eq!(c.track_path_for_rescan(id), Ok("m/a.mp3".to_string()));
    assert!(matches!(c.track_path_for_rescan(9999), Err(AppError::NotFound(_))));
}

#[test]
fn avatar_backfill_patterns() {
    let names = vec!["logo.png".to_string(), "artist.jpg".to_string()];
    assert_eq!(pick_avatar(&names), Some("artist.jpg".to_string()));
    let names2 = vec!["folder.jpg".to_string(), "artist.jpg".to_string()];
    assert_eq!(pick_avatar(&names2), Some("folder.jpg".to_string()));
    assert_eq!(pick_avatar(&vec!["cover.jpg".to_string()]), None);
}
