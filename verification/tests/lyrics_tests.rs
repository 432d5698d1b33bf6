use papilio_core::catalog::LyricsSource;
use papilio_core::lyrics::{locate_lrc, recover_text, resolve_lyrics, LrcHit};
use papilio_core::tags::TagBlock;

fn block(lyrics: Option<&str>) -> TagBlock {
    TagBlock {
        title: None,
        artist: None,
        album: None,
        track_number: None,
        year: None,
        lyrics: lyrics.map(|s| s.to_string()),
        has_picture: false,
    }
}

#[test]
fn utf8_lyrics_decode_readably() {
    let text = "汪苏泷 - 万有引力\0";
    let bytes: Vec<u8> = text.as_bytes().to_vec();
    let out = recover_text(&bytes);
    assert!(out.contains("汪苏泷"));
    // null bytes are stripped
    assert!(!out.contains('\0'));
}

#[test]
fn cjk_simplified_lyrics_decode_readably() {
    // "汪苏泷 - 万有引力" in the CJK-simplified legacy encoding
    let (encoded, _, had_errors) = encoding_rs::GBK.encode("汪苏泷 - 万有引力");
    assert!(!had_errors);
    let bytes: Vec<u8> = encoded.into_owned();
    let out = recover_text(&bytes);
    assert!(out.contains("汪苏泷"));
    assert!(out.contains("万有引力"));
}

#[test]
fn cjk_traditional_lyrics_decode_readably() {
    // the CJK-simplified decoder accepts any fully valid
    // CJK-traditional byte stream (as mojibake), so the traditional
    // fallback is reached when the stream carries a byte the simplified
    // decoder rejects — here a stray lead byte at the end
    let (encoded, _, had_errors) = encoding_rs::BIG5.encode("心若倦了 淚也乾了");
    assert!(!had_errors);
    let mut bytes: Vec<u8> = encoded.into_owned();
    bytes.push(0xFF);
    let out = recover_text(&bytes);
    assert!(out.contains("心若倦了"));
    assert!(out.contains("淚也乾了"));
}

#[test]
fn lyric_strategy_order() {
    // an external file always wins
    let bytes: Vec<u8> = "from file".as_bytes().to_vec();
    let blocks = vec![block(Some("embedded text"))];
    let (text, source) = resolve_lyrics(Some(&bytes), &blocks);
    assert_eq!(text, Some("from file".to_string()));
    assert_eq!(source, LyricsSource::File);

    // without one, the first embedded field wins
    let blocks2 = vec![block(None), block(Some("embedded text"))];
    let (text2, source2) = resolve_lyrics(None, &blocks2);
    assert_eq!(text2, Some("embedded text".to_string()));
    assert_eq!(source2, LyricsSource::Embedded);

    // and nothing means nothing
    let blocks3 = vec![block(None)];
    let (text3, source3) = resolve_lyrics(None, &blocks3);
    assert_eq!(text3, None);
    assert_eq!(source3, LyricsSource::Absent);
}

#[test]
fn lrc_location_order() {
    let stem = "万有引力".to_string();
    let exact = "万有引力.lrc".to_string();
    let fuzzy = "万有引力 (live).lrc".to_string();

    // the sibling wins
    let hit = locate_lrc(&stem, &vec![exact.clone()], &vec![exact.clone()]);
    assert!(matches!(hit, Some(LrcHit::Sibling(n)) if n == exact));

    // else the exact mirror match
    let hit = locate_lrc(&stem, &vec!["other.lrc".to_string()], &vec![exact.clone()]);
    assert!(matches!(hit, Some(LrcHit::Mirror(n)) if n == exact));

    // else the first mirror name starting with the stem
    let hit = locate_lrc(&stem, &Vec::new(), &vec!["zzz.lrc".to_string(), fuzzy.clone()]);
    assert!(matches!(hit, Some(LrcHit::Mirror(n)) if n == fuzzy));

    // else nothing
    let hit = locate_lrc(&stem, &Vec::new(), &vec!["zzz.lrc".to_string()]);
    assert!(hit.is_none());
}
