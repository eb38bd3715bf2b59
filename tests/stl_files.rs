use ebustl_parser::{
    parse_gsi_block, parse_stl_from_slice, parse_time, parse_tti_block,
    u8_from_str_with_default_if_blank, CharacterCodeTable, CodePageCodec, CodePageNumber,
    CumulativeStatus, DiskFormatCode, DisplayStandardCode, Field, ParseError, Stl, Time,
    TimeCodeStatus, TtiBlock,
};

fn padded(text: &str, width: usize) -> Vec<u8> {
    let mut v = text.as_bytes().to_vec();
    assert!(v.len() <= width);
    v.resize(width, b' ');
    v
}

/// A header in code page 850 with the given one-byte disk counts.
fn header(tnd: u8, dsn: u8) -> Vec<u8> {
    let mut b = Vec::new();
    b.extend_from_slice(b"850");
    b.extend_from_slice(b"STL25.01");
    b.push(b'1');
    b.extend_from_slice(b"00");
    b.extend(padded("fr", 2));
    b.extend(padded("Programme", 32));
    b.extend(padded("Episode", 32));
    b.extend(padded("", 32));
    b.extend(padded("", 32));
    b.extend(padded("Translator", 32));
    b.extend(padded("", 32));
    b.extend(padded("REF", 16));
    b.extend_from_slice(b"240101");
    b.extend_from_slice(b"240102");
    b.extend_from_slice(b"01");
    b.extend_from_slice(b"00002");
    b.extend_from_slice(b"00002");
    b.extend_from_slice(b"001");
    b.extend_from_slice(b"40");
    b.extend_from_slice(b"23");
    b.push(b'1');
    b.extend_from_slice(b"10000000");
    b.extend_from_slice(b"10000000");
    b.push(tnd);
    b.push(dsn);
    b.extend_from_slice(b"FRA");
    b.extend(padded("Publisher", 32));
    b.extend(padded("TESTSUB 1.0.1", 32));
    b.extend(padded("", 32));
    b.extend(padded("", 75));
    b.extend(padded("", 576));
    assert_eq!(b.len(), 1024);
    b
}

fn record(sn: u16, cs: u8, text: &[u8]) -> Vec<u8> {
    let mut b = vec![0u8, (sn % 256) as u8, (sn / 256) as u8, 0xff, cs];
    b.extend_from_slice(&[10, 0, 1, 2]);
    b.extend_from_slice(&[10, 0, 3, 4]);
    b.extend_from_slice(&[20, 2, 0]);
    b.extend_from_slice(text);
    b.resize(128, 0x8f);
    b
}

fn file(tnd: u8, dsn: u8) -> Vec<u8> {
    let mut b = header(tnd, dsn);
    b.extend(record(1, 0, b"    dans la baie de New York.\r\n"));
    b.extend(record(0x0102, 3, b"Au revoir"));
    b
}

#[test]
fn test_parse_time() {
    let ok = [0x1, 0x2, 0x3, 0x4];
    assert_eq!(
        parse_time(&ok),
        Ok(Time {
            hours: 1,
            minutes: 2,
            seconds: 3,
            frames: 4,
        })
    );
}

#[test]
fn parse_time_needs_four_bytes() {
    assert_eq!(parse_time(&[1, 2, 3]), Err(ParseError::Incomplete));
}

#[test]
fn reads_header_fields() {
    let stl = parse_stl_from_slice(&file(b'1', b'1')).expect("parse");
    assert_eq!(stl.gsi.cpn, CodePageNumber::CPN_850);
    assert_eq!(stl.gsi.get_code_page_number(), CodePageNumber::CPN_850);
    assert_eq!(stl.gsi.dfc, DiskFormatCode::STL25_01);
    assert_eq!(stl.gsi.dsc, DisplayStandardCode::Level1Teletext);
    assert_eq!(stl.gsi.cct, CharacterCodeTable::Latin);
    assert_eq!(stl.gsi.tcs, TimeCodeStatus::IntendedForUse);
    assert_eq!(stl.gsi.lc, "fr");
    assert_eq!(stl.gsi.opt, "Programme");
    assert_eq!(stl.gsi.tpt, "");
    assert_eq!(stl.gsi.cd, "240101");
    assert_eq!(stl.gsi.tnb, 2);
    assert_eq!(stl.gsi.tng, 1);
    assert_eq!(stl.gsi.mnc, 40);
    assert_eq!(stl.gsi.mnr, 23);
    assert_eq!(stl.gsi.co, "FRA");
    assert_eq!(stl.gsi.pub_, "Publisher");
    assert_eq!(stl.ttis.len(), 2);
}

#[test]
fn editor_name_is_trimmed() {
    let stl = parse_stl_from_slice(&file(b'1', b'1')).expect("parse");
    assert_eq!(stl.gsi.en, "TESTSUB 1.0.1");
}

#[test]
fn blank_disk_counts_read_as_one() {
    let gsi = parse_gsi_block(&header(b' ', b' ')).expect("parse");
    assert_eq!(gsi.tnd, 1);
    assert_eq!(gsi.dsn, 1);
    let gsi = parse_gsi_block(&header(b'3', b'2')).expect("parse");
    assert_eq!(gsi.tnd, 3);
    assert_eq!(gsi.dsn, 2);
}

#[test]
fn bad_disk_count_is_rejected() {
    assert_eq!(
        parse_gsi_block(&header(b'x', b'1')),
        Err(ParseError::InvalidField(Field::TotalDisks))
    );
    assert_eq!(
        parse_gsi_block(&header(b'1', b'-')),
        Err(ParseError::InvalidField(Field::DiskSequenceNumber))
    );
}

#[test]
fn reads_records() {
    let stl = parse_stl_from_slice(&file(b'1', b'1')).expect("parse");
    let first = &stl.ttis[0];
    assert_eq!(first.sn, 1);
    assert_eq!(first.ebn, 0xff);
    assert_eq!(first.cs, CumulativeStatus::NotPartOfASet);
    assert_eq!(first.tci, Time { hours: 10, minutes: 0, seconds: 1, frames: 2 });
    assert_eq!(first.tco, Time { hours: 10, minutes: 0, seconds: 3, frames: 4 });
    assert_eq!(first.vp, 20);
    assert_eq!(first.jc, 2);
    assert_eq!(first.cf, 0);
    assert_eq!(first.tf.len(), 112);
    assert_eq!(first.cct, CharacterCodeTable::Latin);
    assert_eq!(first.get_text(), Ok("    dans la baie de New York.\r\n".to_string()));
    let second = &stl.ttis[1];
    assert_eq!(second.sn, 0x0102);
    assert_eq!(second.cs, CumulativeStatus::Last);
    assert_eq!(second.get_text(), Ok("Au revoir".to_string()));
}

#[test]
fn round_trip_gives_back_the_bytes() {
    let bytes = file(b'1', b'1');
    let stl = parse_stl_from_slice(&bytes).expect("parse");
    assert_eq!(stl.serialize().expect("serialize"), bytes);
}

#[test]
fn blank_disk_counts_are_written_back_blank() {
    let bytes = file(b' ', b' ');
    let stl = parse_stl_from_slice(&bytes).expect("parse");
    assert!(stl.gsi.tnd_blank && stl.gsi.dsn_blank);
    let out = stl.serialize().expect("serialize");
    assert_eq!(out[272], b' ');
    assert_eq!(out[273], b' ');
    assert_eq!(out, bytes);
    let bytes = file(b'1', b' ');
    let stl = parse_stl_from_slice(&bytes).expect("parse");
    assert!(!stl.gsi.tnd_blank && stl.gsi.dsn_blank);
    assert_eq!(stl.serialize().expect("serialize"), bytes);
}

#[test]
fn written_blocks_have_fixed_sizes() {
    let stl = parse_stl_from_slice(&file(b'1', b'1')).expect("parse");
    assert_eq!(stl.gsi.serialize().expect("serialize").len(), 1024);
    let mut short = stl.ttis[0].clone();
    short.tf = vec![b'a'; 3];
    let out = short.serialize();
    assert_eq!(out.len(), 128);
    assert_eq!(&out[16..19], b"aaa");
    assert_eq!(out[19], 0x8f);
    let mut long = stl.ttis[0].clone();
    long.tf = vec![b'b'; 300];
    assert_eq!(long.serialize().len(), 128);
    let mut gsi = stl.gsi.clone();
    gsi.opt = "A title that is far longer than thirty-two characters".to_string();
    gsi.tng = 12345;
    let out = gsi.serialize().expect("serialize");
    assert_eq!(out.len(), 1024);
    assert_eq!(&out[16..48], b"A title that is far longer than ");
    assert_eq!(&out[248..251], b"345");
}

#[test]
fn header_alone_is_rejected() {
    assert_eq!(parse_stl_from_slice(&header(b'1', b'1')), Err(ParseError::Incomplete));
}

#[test]
fn cut_record_is_incomplete() {
    let mut b = file(b'1', b'1');
    b.truncate(1024 + 128 + 100);
    assert_eq!(parse_stl_from_slice(&b), Err(ParseError::Incomplete));
    assert_eq!(parse_stl_from_slice(&b[..500]), Err(ParseError::Incomplete));
}

#[test]
fn record_parse_ends_on_empty_input() {
    assert_eq!(parse_tti_block(&[], CharacterCodeTable::Latin), Ok(None));
    assert_eq!(parse_tti_block(&[0u8; 20], CharacterCodeTable::Latin), Err(ParseError::Incomplete));
}

#[test]
fn unknown_codes_are_rejected() {
    let mut b = file(b'1', b'1');
    b[3..11].copy_from_slice(b"STL99.01");
    assert_eq!(parse_stl_from_slice(&b), Err(ParseError::DiskFormatCode("STL99.01".to_string())));

    let mut b = file(b'1', b'1');
    b[11] = b'x';
    assert_eq!(parse_stl_from_slice(&b), Err(ParseError::DisplayStandardCode));

    let mut b = file(b'1', b'1');
    b[13] = b'9';
    assert_eq!(parse_stl_from_slice(&b), Err(ParseError::CharacterCodeTable));

    let mut b = file(b'1', b'1');
    b[255] = b'7';
    assert_eq!(parse_stl_from_slice(&b), Err(ParseError::TimeCodeStatus));

    let mut b = file(b'1', b'1');
    b[1024 + 128 + 4] = 9;
    assert_eq!(parse_stl_from_slice(&b), Err(ParseError::CumulativeStatus));

    let mut b = file(b'1', b'1');
    b[0..3].copy_from_slice(b"999");
    assert_eq!(parse_stl_from_slice(&b), Err(ParseError::CodePageNumber(999)));
}

#[test]
fn malformed_numbers_are_rejected() {
    let mut b = file(b'1', b'1');
    b[0..3].copy_from_slice(b"8x0");
    assert_eq!(parse_stl_from_slice(&b), Err(ParseError::InvalidField(Field::CodePage)));

    let mut b = file(b'1', b'1');
    b[238..243].copy_from_slice(b"00a01");
    assert_eq!(parse_stl_from_slice(&b), Err(ParseError::InvalidField(Field::TotalTtiBlocks)));

    let mut b = file(b'1', b'1');
    b[238..243].copy_from_slice(b"99999");
    assert_eq!(parse_stl_from_slice(&b), Err(ParseError::InvalidField(Field::TotalTtiBlocks)));

    let mut b = file(b'1', b'1');
    b[253..255].copy_from_slice(b" 3");
    assert_eq!(parse_stl_from_slice(&b), Err(ParseError::InvalidField(Field::MaxRows)));
    assert_eq!(Field::MaxRows.label(), "mnr");
}

#[test]
fn unrepresentable_text_fails_to_encode() {
    let mut stl: Stl = parse_stl_from_slice(&file(b'1', b'1')).expect("parse");
    stl.gsi.en = "€uro".to_string();
    match stl.serialize() {
        Err(ParseError::CodePageEncoding { codepage, value, .. }) => {
            assert_eq!(codepage, 850);
            assert_eq!(value, "€uro");
        }
        other => panic!("unexpected {:?}", other),
    }
    let codec = CodePageCodec::new(850).expect("codec");
    assert!(matches!(
        codec.encode("日本", 8),
        Err(ParseError::CodePageEncoding { codepage: 850, .. })
    ));
}

#[test]
fn codec_reads_and_writes_code_page_bytes() {
    let codec = CodePageCodec::new(850).expect("codec");
    assert_eq!(codec.code_page(), 850);
    assert_eq!(codec.encode("é", 3), Ok(vec![0x82, b' ', b' ']));
    assert_eq!(codec.encode("abcd", 2), Ok(vec![b'a', b'b']));
    assert_eq!(codec.decode(&[0x82, b'a', b' ', b' ']), Ok("éa".to_string()));
    assert_eq!(codec.decode(&[b' ', b'a', b' ']), Ok(" a".to_string()));
    assert_eq!(codec.decode(&[b' ', b' ']), Ok(String::new()));
    assert_eq!(CodePageCodec::new(1252).map(|c| c.code_page()), Err(ParseError::CodePageNumber(1252)));
    let cyrillic = CodePageCodec::new(855).expect("codec");
    assert_eq!(cyrillic.decode(&[0xa0]), Ok("а".to_string()));
}

#[test]
fn code_page_864_leaves_some_bytes_undefined() {
    let arabic = CodePageCodec::new(864).expect("codec");
    assert_eq!(arabic.code_page(), 864);
    assert_eq!(arabic.decode(&[0x80, b'1', b' ']), Ok("°1".to_string()));
    assert_eq!(arabic.decode(&[b'a', 0x9b]), Err(ParseError::CodePageDecoding(864)));
    assert_eq!(arabic.decode(&[0xff, b' ']), Err(ParseError::CodePageDecoding(864)));
    assert_eq!(arabic.encode("°1", 3), Ok(vec![0x80, b'1', b' ']));
    assert_eq!(arabic.encode("\u{66A}%", 2), Ok(vec![0x25, 0x25]));
    assert!(matches!(
        arabic.encode("日", 2),
        Err(ParseError::CodePageEncoding { codepage: 864, .. })
    ));
}

#[test]
fn record_text_uses_its_code_table() {
    let mut t: TtiBlock = parse_stl_from_slice(&file(b'1', b'1')).expect("parse").ttis[0].clone();
    t.tf = vec![0x82, b'!', b' ', 0x8f, 0x8f];
    assert_eq!(t.get_text(), Ok("é!".to_string()));
    t.cct = CharacterCodeTable::LatinArabic;
    t.tf = vec![0x90, b'=', 0x80, 0x8f, 0x8f];
    assert_eq!(t.get_text(), Ok("β=°".to_string()));
    t.tf = vec![b'x', 0xa6, b' '];
    assert_eq!(t.get_text(), Err(ParseError::InvalidField(Field::SubtitleText)));
    assert_eq!(Field::SubtitleText.label(), "tf");
    t.cct = CharacterCodeTable::LatinGreek;
    t.tf = vec![0x80, b' '];
    assert_eq!(t.get_text(), Ok("\u{0391}".to_string()));
}

#[test]
fn code_page_numbers() {
    assert_eq!(CodePageNumber::from_u16(437), Ok(CodePageNumber::CPN_437));
    assert_eq!(CodePageNumber::from_u16(865), Ok(CodePageNumber::CPN_865));
    assert_eq!(CodePageNumber::from_u16(852), Err(ParseError::CodePageNumber(852)));
    assert_eq!(CodePageNumber::CPN_863.value(), 863);
}

#[test]
fn enumerations_map_both_ways() {
    assert_eq!(DisplayStandardCode::parse(b' '), Ok(DisplayStandardCode::Blank));
    assert_eq!(DisplayStandardCode::Level2Teletext.to_byte(), b'2');
    assert_eq!(TimeCodeStatus::parse(b'0'), Ok(TimeCodeStatus::NotIntendedForUse));
    assert_eq!(CharacterCodeTable::parse(b'0', b'3'), Ok(CharacterCodeTable::LatinGreek));
    assert_eq!(CharacterCodeTable::parse(b'1', b'0'), Err(ParseError::CharacterCodeTable));
    assert_eq!(CumulativeStatus::parse(2), Ok(CumulativeStatus::Intermediate));
    assert_eq!(CumulativeStatus::parse(4), Err(ParseError::CumulativeStatus));
    assert_eq!(DiskFormatCode::parse(b"STL30.01"), Some(DiskFormatCode::STL30_01));
    assert_eq!(DiskFormatCode::STL30_01.to_bytes(), b"STL30.01".to_vec());
    assert_eq!(DiskFormatCode::parse(b"STL30.0"), None);
}

#[test]
fn counts_with_default_when_blank() {
    assert_eq!(u8_from_str_with_default_if_blank("  ", 1), Ok(1));
    assert_eq!(u8_from_str_with_default_if_blank("", 5), Ok(5));
    assert_eq!(u8_from_str_with_default_if_blank("7", 1), Ok(7));
    assert_eq!(u8_from_str_with_default_if_blank("+42", 1), Ok(42));
    assert!(u8_from_str_with_default_if_blank("256", 1).is_err());
    assert!(u8_from_str_with_default_if_blank("x", 1).is_err());
}

#[test]
fn thirteen_records_in_code_page_850() {
    let mut b = header(b'1', b'1');
    for i in 0..13u16 {
        if i == 11 {
            b.extend(record(i, 0, b"    dans la baie de New York.\r\n"));
        } else {
            b.extend(record(i, 0, b"Texte"));
        }
    }
    let stl = parse_stl_from_slice(&b).expect("parse");
    assert_eq!(stl.gsi.cpn, CodePageNumber::CPN_850);
    assert_eq!(stl.ttis.len(), 13);
    assert_eq!(
        stl.ttis.get(11).unwrap().get_text(),
        Ok("    dans la baie de New York.\r\n".to_string())
    );
    assert_eq!(stl.serialize().expect("serialize"), b);
}

#[test]
fn parse_basic_file() {
    let mut buffer = header(b' ', b' ');
    for i in 0..13u16 {
        if i == 11 {
            buffer.extend(record(i, 0, b"    dans la baie de New York.\r\n"));
        } else {
            buffer.extend(record(i, 0, b"Texte"));
        }
    }
    let stl = parse_stl_from_slice(&buffer).expect("parse_stl_from_slice");
    assert_eq!(CodePageNumber::CPN_850, stl.gsi.cpn);
    assert_eq!(1_u8, stl.gsi.tnd);
    assert_eq!(1_u8, stl.gsi.dsn);
    assert_eq!("TESTSUB 1.0.1", stl.gsi.en);
    assert_eq!(13, stl.ttis.len());
    assert_eq!(
        Ok("    dans la baie de New York.\r\n".to_string()),
        stl.ttis.get(11).unwrap().get_text()
    );
    let stl2 = parse_stl_from_slice(&buffer).expect("parse again");
    assert_eq!(stl, stl2);
}

#[test]
fn roundtrip_basic_file() {
    let mut buffer = header(b'1', b'1');
    for i in 0..13u16 {
        buffer.extend(record(i, (i % 4) as u8, b"Ligne\r\nsuivante"));
    }
    let stl = parse_stl_from_slice(&buffer).expect("Parse stl");
    let mut serialized = stl.gsi.serialize().expect("Serialize GSI");
    stl.ttis
        .iter()
        .for_each(|tti| serialized.append(&mut tti.serialize()));
    assert_eq!(buffer, serialized);
}
