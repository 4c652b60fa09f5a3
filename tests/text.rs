use sc3tools::codec::{Expr, StringToken};
use sc3tools::equivalence::{
    changed_lines, encode_line, equivalent, ReplaceError, SegmentError, TextSegment,
};
use sc3tools::gamedef::{get_by_alias, parse_compound_ch_map, GameDef, PuaMapping};
use sc3tools::text::{
    decode_str, fold_fullwidth, is_fullwidth_ch, replace_fullwidth, to_halfwidth, Char,
    EncodingError, EncodingMaps, FULLWIDTH_SPACE,
};

fn game() -> GameDef {
    GameDef::new(
        "Test Game".to_string(),
        vec!["tg".to_string(), "test".to_string()],
        "abcＡ\u{E000}\u{E001}",
        "[E000-E001]=ff",
        vec![],
    )
    .unwrap()
}

#[test]
fn parse_pua_mapping() {
    assert_eq!(
        PuaMapping::parse("[E01C]=meow").unwrap().1,
        PuaMapping::new('\u{E01C}', '\u{E01C}', "meow")
    );

    assert_eq!(
        PuaMapping::parse("[E01C-E01F]=¹⁸").unwrap().1,
        PuaMapping::new('\u{E01C}', '\u{E01F}', "¹⁸")
    );
}

#[test]
fn pua_mapping_rejects_bad_lines() {
    assert!(PuaMapping::parse("E01C]=meow").is_none());
    assert!(PuaMapping::parse("[E01G]=meow").is_none());
    assert!(PuaMapping::parse("[D800]=x").is_none());
    assert!(PuaMapping::parse("[E01C-]=x").is_none());
    assert!(PuaMapping::parse("[E01C]meow").is_none());
    assert!(PuaMapping::parse("[E01C]=a\rb").is_none());
    assert_eq!(PuaMapping::parse("[e01c]=a\r\nb").unwrap().0, 8);
}

#[test]
fn compound_map_expands_ranges() {
    let t = parse_compound_ch_map("[E000-E002]=ab\n[41]=z\r\n[E010]=q\nnot a line\n[E011]=r");
    let keys: Vec<char> = t.iter().map(|e| e.0).collect();
    assert_eq!(keys, vec!['\u{E000}', '\u{E001}', '\u{E002}', 'A', '\u{E010}']);
    assert_eq!(t[1].1, vec!['a', 'b']);
    assert_eq!(t[3].1, vec!['z']);
}

#[test]
fn compound_map_skips_surrogates() {
    let t = parse_compound_ch_map("[D7FF-E000]=x");
    let keys: Vec<char> = t.iter().map(|e| e.0).collect();
    assert_eq!(keys, vec!['\u{D7FF}', '\u{E000}']);
}

#[test]
fn missing_pua_char_fails_construction() {
    let r = GameDef::new(
        "Broken".to_string(),
        vec![],
        "ab\u{E000}",
        "[E000-E002]=x",
        vec![],
    );
    let e = r.err().unwrap();
    assert_eq!(e.missing_pua_chars, vec!['\u{E001}', '\u{E002}']);

    let e = EncodingMaps::new(&vec!['a'], &vec![('\u{E005}', vec!['x'])]).unwrap_err();
    assert_eq!(e.missing_pua_chars, vec!['\u{E005}']);
}

#[test]
fn charset_positions_give_code_units() {
    let g = game();
    assert_eq!(g.charset().len(), 6);
    assert_eq!(g.encoding_maps.decode_char(0x8000), Some(Char::Regular('a')));
    assert_eq!(g.encoding_maps.decode_char(0x8004), Some(Char::Compound(vec!['f', 'f'])));
    assert_eq!(g.encoding_maps.decode_char(0x8006), None);
    assert_eq!(g.encoding_maps.decode_char(0x0041), None);
    assert_eq!(g.encoding_maps.encode_char('c'), Ok(0x8002));
    assert_eq!(g.encoding_maps.encode_char('z'), Err(EncodingError::UnknownChar('z')));
}

#[test]
fn decode_text_with_and_without_folding() {
    let g = game();
    let codes = vec![0x8000, 0x8003, 0x8005];
    assert_eq!(decode_str(&codes, &g, true).unwrap(), vec!['a', 'Ａ', 'f', 'f']);
    assert_eq!(decode_str(&codes, &g, false).unwrap(), vec!['a', 'A', 'f', 'f']);
    assert_eq!(decode_str(&[0x8000, 0x9000], &g, true), Err(EncodingError::UnknownCode(0x9000)));
}

#[test]
fn fullwidth_folding() {
    let none: Vec<char> = vec![];
    assert!(is_fullwidth_ch('Ａ'));
    assert!(!is_fullwidth_ch('A'));
    assert!(!is_fullwidth_ch(FULLWIDTH_SPACE));
    assert_eq!(replace_fullwidth('！'), '!');
    assert_eq!(replace_fullwidth('～'), '~');
    assert_eq!(fold_fullwidth('Ｚ', &none), 'Z');
    assert_eq!(fold_fullwidth(FULLWIDTH_SPACE, &none), FULLWIDTH_SPACE);
    assert_eq!(fold_fullwidth('Ｚ', &vec!['Ｚ']), 'Ｚ');
}

#[test]
fn folding_is_idempotent() {
    let bl = vec!['％'];
    for c in ['a', 'Ａ', '％', '＠', FULLWIDTH_SPACE, 'あ', '9'] {
        let once = fold_fullwidth(c, &bl);
        assert_eq!(fold_fullwidth(once, &bl), once);
    }
    assert_eq!(fold_fullwidth('q', &bl), 'q');
    assert_eq!(to_halfwidth(&vec!['Ａ', 'b', '％'], &bl), vec!['A', 'b', '％']);
}

#[test]
fn alias_lookup() {
    let defs = vec![game()];
    assert_eq!(get_by_alias(&defs, "test").unwrap().full_name, "Test Game");
    assert!(get_by_alias(&defs, "tes").is_none());
}

#[test]
fn equivalence_of_tokens_and_segments() {
    let g = game();
    let scr = StringToken::Text(vec![0x8000, 0x8003]);
    assert_eq!(equivalent(&scr, &TextSegment::Text(vec!['a', 'Ａ']), &g, false), Ok(true));
    assert_eq!(equivalent(&scr, &TextSegment::Text(vec!['a', 'A']), &g, false), Ok(false));
    assert_eq!(equivalent(&scr, &TextSegment::Text(vec!['a', 'A']), &g, true), Ok(true));
    assert_eq!(equivalent(&scr, &TextSegment::Text(vec!['a', 'Ａ']), &g, true), Ok(true));
    let bad = StringToken::Text(vec![0x9000]);
    assert_eq!(
        equivalent(&bad, &TextSegment::Text(vec!['a']), &g, false),
        Err(EncodingError::UnknownCode(0x9000))
    );
    let fs = StringToken::FontSize(3);
    assert_eq!(equivalent(&fs, &TextSegment::Command(StringToken::FontSize(3)), &g, false), Ok(true));
    assert_eq!(equivalent(&fs, &TextSegment::Command(StringToken::FontSize(4)), &g, false), Ok(false));
    assert_eq!(equivalent(&fs, &TextSegment::UnknownCommand, &g, false), Ok(false));
    assert_eq!(equivalent(&fs, &TextSegment::Text(vec!['a']), &g, false), Ok(false));
}

#[test]
fn line_count_mismatch_fails_replacement() {
    let g = game();
    let script = vec![vec![StringToken::LineBreak], vec![StringToken::LineBreak]];
    let text = vec![vec![TextSegment::Command(StringToken::LineBreak)]];
    assert_eq!(changed_lines(&script, &text, &g, false), Err(ReplaceError::LineCountMismatch));
}

#[test]
fn changed_lines_are_found() {
    let g = game();
    let script = vec![
        vec![StringToken::Text(vec![0x8000])],
        vec![StringToken::Text(vec![0x8001])],
        vec![StringToken::LineBreak, StringToken::Center],
        vec![StringToken::LineBreak],
    ];
    let text = vec![
        vec![TextSegment::Text(vec!['a'])],
        vec![TextSegment::Text(vec!['c'])],
        vec![TextSegment::Command(StringToken::LineBreak)],
        vec![TextSegment::Command(StringToken::LineBreak), TextSegment::Text(vec!['b'])],
    ];
    assert_eq!(changed_lines(&script, &text, &g, false), Ok(vec![1, 2, 3]));
    let text_bad = vec![
        vec![TextSegment::Text(vec!['a'])],
        vec![TextSegment::Text(vec!['b'])],
        vec![TextSegment::Command(StringToken::LineBreak), TextSegment::Command(StringToken::Center)],
        vec![TextSegment::Command(StringToken::LineBreak), TextSegment::UnknownCommand],
    ];
    assert_eq!(
        changed_lines(&script, &text_bad, &g, false),
        Err(ReplaceError::Text(3, SegmentError::UnknownCommand))
    );
}

#[test]
fn text_line_encodes_to_script_bytes() {
    let g = game();
    let segs = vec![
        TextSegment::Command(StringToken::NameStart),
        TextSegment::Text(vec!['a', 'b']),
        TextSegment::Command(StringToken::Eval(Expr(vec![0x29, 0x0A, 0x00]))),
    ];
    let s = encode_line(&segs, &g).unwrap();
    assert_eq!(s.0, vec![0x01, 0x80, 0x00, 0x80, 0x01, 0x15, 0x29, 0x0A, 0x00, 0xFF]);
    assert_eq!(
        encode_line(&vec![TextSegment::Text(vec!['z'])], &g).unwrap_err(),
        SegmentError::Encoding(EncodingError::UnknownChar('z'))
    );
    assert_eq!(encode_line(&vec![], &g).unwrap().0, vec![0xFF]);
}
